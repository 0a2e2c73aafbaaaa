//! The cursor-based reader and writer.
//!
//! [`Deserializer`] wraps a borrowed byte slice and a cursor and decodes
//! little-endian primitives, byte runs and zero-terminated UTF-16 strings.
//! [`Serializer`] owns a fixed-capacity byte buffer and a cursor and
//! performs the matching writes.  Every fallible (`try_`) operation
//! validates its bounds strictly before any mutation, so a failed
//! operation leaves the cursor and the buffer contents unchanged; the
//! non-fallible forms state the same bounds as preconditions.

use crate::encoding::align_up;
use crate::encoding::has_zero_unit;
use crate::encoding::is_high_surrogate;
use crate::encoding::is_low_surrogate;
use crate::encoding::is_surrogate;
use crate::encoding::lemma_align_up;
use crate::encoding::lemma_zero_unit_at_unique;
use crate::encoding::pair_char;
use crate::encoding::pair_code;
use crate::encoding::splice;
use crate::encoding::u16_at;
use crate::encoding::u16le_seq_at;
use crate::encoding::unit_run_byte_len;
use crate::encoding::units_le_bytes;
use crate::encoding::units_of;
use crate::encoding::utf16_decode;
use crate::encoding::zero_bytes;
use crate::encoding::zero_unit_at;
use crate::error::Error;
use vstd::bytes::spec_u16_to_le_bytes;
use vstd::bytes::spec_u32_from_le_bytes;
use vstd::bytes::spec_u32_to_le_bytes;
use vstd::bytes::spec_u64_from_le_bytes;
use vstd::bytes::spec_u64_to_le_bytes;
use vstd::bytes::u16_from_le_bytes;
use vstd::bytes::u16_to_le_bytes;
use vstd::bytes::u32_from_le_bytes;
use vstd::bytes::u32_to_le_bytes;
use vstd::bytes::u64_from_le_bytes;
use vstd::bytes::u64_to_le_bytes;
use vstd::prelude::*;
use vstd::slice::slice_subrange;
use vstd::slice::slice_to_vec;
use vstd::string::StrSliceExecFns;
use vstd::utf8::char_u32_cast;
use vstd::utf8::is_scalar;

verus! {

broadcast use vstd::slice::axiom_spec_len, vstd::std_specs::vec::axiom_spec_len;

/// Adding one unit and doubling, in wrapping `usize` arithmetic, gives
/// the wrapped byte length of an `n + 1`-unit run.
proof fn lemma_unit_run_byte_len_wraps(n: usize)
    ensures
        n.wrapping_add(1).wrapping_mul(2) == unit_run_byte_len(n as nat + 1),
{
    let m = usize::MAX as nat + 1;
    let x = n.wrapping_add(1);
    assert(x.wrapping_mul(2) == ((x as nat * 2) % m) as usize);
    if n == usize::MAX {
        assert(x == 0);
        assert((0nat * 2) % m == 0) by {
            vstd::arithmetic::div_mod::lemma_mod_multiples_basic(0, m as int);
        }
        assert((2 * (n as nat + 1)) % m == 0) by {
            assert(2 * (n as nat + 1) == 2 * m);
            vstd::arithmetic::div_mod::lemma_mod_multiples_basic(2, m as int);
        }
    } else {
        assert(x == n + 1);
        assert(x as nat * 2 == 2 * (n as nat + 1));
    }
}

/// The length of a real slice fits in `usize`.
proof fn lemma_slice_len_fits(s: &[u8])
    ensures
        s@.len() <= usize::MAX,
{
    let l: usize = vstd::slice::spec_slice_len(s);
    assert(l == s@.len());
}

/// The length of a real vector fits in `usize`.
proof fn lemma_vec_len_fits(v: &Vec<u8>)
    ensures
        v@.len() <= usize::MAX,
{
    let l: usize = vstd::std_specs::vec::spec_vec_len(v);
    assert(l == v@.len());
}

/// A sequential, bounds-checked reader over a borrowed byte slice.
pub struct Deserializer<'data> {
    data: &'data [u8],
    cursor: usize,
}

impl<'data> Deserializer<'data> {
    /// The underlying bytes; a deserializer never changes them.
    pub closed spec fn bytes(&self) -> Seq<u8> {
        self.data@
    }

    /// The cursor: the byte offset the next read starts at.
    pub closed spec fn pos(&self) -> int {
        self.cursor as int
    }

    /// The cursor never leaves the slice; every operation preserves this.
    pub open spec fn wf(&self) -> bool {
        0 <= self.pos() <= self.bytes().len()
    }

    /// A reader over `data` with the cursor at the start.
    pub fn new(data: &'data [u8]) -> (r: Deserializer<'data>)
        ensures
            r.wf(),
            r.bytes() == data@,
            r.pos() == 0,
    {
        Deserializer { data, cursor: 0 }
    }

    /// The current cursor position.
    pub fn cursor(&self) -> (r: usize)
        ensures
            r == self.pos(),
    {
        self.cursor
    }

    /// How many bytes are left between the cursor and the end of the slice.
    pub fn remaining(&self) -> (r: usize)
        requires
            self.wf(),
        ensures
            r == self.bytes().len() - self.pos(),
    {
        self.data.len() - self.cursor
    }

    /// Advance the cursor by `offset` bytes; fails, changing nothing, if
    /// that would move past the end of the slice.
    pub fn try_offset(&mut self, offset: usize) -> (r: Result<(), Error>)
        requires
            old(self).wf(),
        ensures
            final(self).wf(),
            final(self).bytes() == old(self).bytes(),
            old(self).pos() + offset <= old(self).bytes().len() ==> {
                &&& r is Ok
                &&& final(self).pos() == old(self).pos() + offset
            },
            old(self).pos() + offset > old(self).bytes().len() ==> {
                &&& r == Err::<(), Error>(
                    Error::TryOffsetError(
                        offset,
                        old(self).pos() as usize,
                        old(self).bytes().len() as usize,
                    ),
                )
                &&& final(self).pos() == old(self).pos()
            },
    {
        if offset > self.data.len() - self.cursor {
            return Err(Error::TryOffsetError(offset, self.cursor, self.data.len()));
        }
        self.cursor = self.cursor + offset;
        Ok(())
    }

    /// Advance the cursor to the next 4-byte boundary.
    pub fn try_align_u32(&mut self) -> (r: Result<(), Error>)
        requires
            old(self).wf(),
        ensures
            final(self).wf(),
            final(self).bytes() == old(self).bytes(),
            align_up(old(self).pos(), 4) <= old(self).bytes().len() ==> {
                &&& r is Ok
                &&& final(self).pos() == align_up(old(self).pos(), 4)
            },
            align_up(old(self).pos(), 4) > old(self).bytes().len() ==> {
                &&& r == Err::<(), Error>(
                    Error::TryOffsetError(
                        (align_up(old(self).pos(), 4) - old(self).pos()) as usize,
                        old(self).pos() as usize,
                        old(self).bytes().len() as usize,
                    ),
                )
                &&& final(self).pos() == old(self).pos()
            },
    {
        self.try_align(4)
    }

    /// Advance the cursor to the next 8-byte boundary.
    pub fn try_align_u64(&mut self) -> (r: Result<(), Error>)
        requires
            old(self).wf(),
        ensures
            final(self).wf(),
            final(self).bytes() == old(self).bytes(),
            align_up(old(self).pos(), 8) <= old(self).bytes().len() ==> {
                &&& r is Ok
                &&& final(self).pos() == align_up(old(self).pos(), 8)
            },
            align_up(old(self).pos(), 8) > old(self).bytes().len() ==> {
                &&& r == Err::<(), Error>(
                    Error::TryOffsetError(
                        (align_up(old(self).pos(), 8) - old(self).pos()) as usize,
                        old(self).pos() as usize,
                        old(self).bytes().len() as usize,
                    ),
                )
                &&& final(self).pos() == old(self).pos()
            },
    {
        self.try_align(8)
    }

    /// Advance the cursor to the next multiple of `align` (relative to the
    /// start of the slice); fails, changing nothing, if that multiple lies
    /// past the end.
    pub fn try_align(&mut self, align: usize) -> (r: Result<(), Error>)
        requires
            old(self).wf(),
            align > 0,
        ensures
            final(self).wf(),
            final(self).bytes() == old(self).bytes(),
            align_up(old(self).pos(), align as int) <= old(self).bytes().len() ==> {
                &&& r is Ok
                &&& final(self).pos() == align_up(old(self).pos(), align as int)
            },
            align_up(old(self).pos(), align as int) > old(self).bytes().len() ==> {
                &&& r == Err::<(), Error>(
                    Error::TryOffsetError(
                        (align_up(old(self).pos(), align as int) - old(self).pos()) as usize,
                        old(self).pos() as usize,
                        old(self).bytes().len() as usize,
                    ),
                )
                &&& final(self).pos() == old(self).pos()
            },
    {
        let rem = self.cursor % align;
        let pad = if rem == 0 {
            0
        } else {
            align - rem
        };
        proof {
            lemma_align_up(old(self).pos(), align as int);
            assert(align_up(old(self).pos(), align as int) == old(self).pos() + pad);
        }
        self.try_offset(pad)
    }

    /// Place the cursor at `cursor`; fails, changing nothing, if that lies
    /// past the end of the slice.
    pub fn try_set_cursor(&mut self, cursor: usize) -> (r: Result<(), Error>)
        requires
            old(self).wf(),
        ensures
            final(self).wf(),
            final(self).bytes() == old(self).bytes(),
            cursor <= old(self).bytes().len() ==> {
                &&& r is Ok
                &&& final(self).pos() == cursor
            },
            cursor > old(self).bytes().len() ==> {
                &&& r == Err::<(), Error>(
                    Error::TryOffsetError(
                        cursor,
                        old(self).pos() as usize,
                        old(self).bytes().len() as usize,
                    ),
                )
                &&& final(self).pos() == old(self).pos()
            },
    {
        if cursor > self.data.len() {
            return Err(Error::TryOffsetError(cursor, self.cursor, self.data.len()));
        }
        self.cursor = cursor;
        Ok(())
    }

    /// Copy `len` bytes starting at the cursor into a fresh vector and
    /// advance the cursor by `len`; fails, changing nothing, if fewer than
    /// `len` bytes remain.
    pub fn try_load_u8_vec(&mut self, len: usize) -> (r: Result<Vec<u8>, Error>)
        requires
            old(self).wf(),
        ensures
            final(self).wf(),
            final(self).bytes() == old(self).bytes(),
            old(self).pos() + len <= old(self).bytes().len() ==> {
                &&& r matches Ok(v) && v@ == old(self).bytes().subrange(
                    old(self).pos(),
                    old(self).pos() + len,
                )
                &&& final(self).pos() == old(self).pos() + len
            },
            old(self).pos() + len > old(self).bytes().len() ==> {
                &&& r == Err::<Vec<u8>, Error>(
                    Error::TryOffsetError(
                        len,
                        old(self).pos() as usize,
                        old(self).bytes().len() as usize,
                    ),
                )
                &&& final(self).pos() == old(self).pos()
            },
    {
        if len > self.data.len() - self.cursor {
            return Err(Error::TryOffsetError(len, self.cursor, self.data.len()));
        }
        let s = slice_subrange(self.data, self.cursor, self.cursor + len);
        let v = slice_to_vec(s);
        self.cursor = self.cursor + len;
        Ok(v)
    }

    /// Read `len` consecutive little-endian 16-bit units and advance the
    /// cursor past them; fails, changing nothing, if fewer than `2 * len`
    /// bytes remain.
    pub fn try_load_u16le_vec(&mut self, len: usize) -> (r: Result<Vec<u16>, Error>)
        requires
            old(self).wf(),
        ensures
            final(self).wf(),
            final(self).bytes() == old(self).bytes(),
            old(self).pos() + 2 * len <= old(self).bytes().len() ==> {
                &&& r matches Ok(v) && v@ == u16le_seq_at(
                    old(self).bytes(),
                    old(self).pos(),
                    len as nat,
                )
                &&& final(self).pos() == old(self).pos() + 2 * len
            },
            old(self).pos() + 2 * len > old(self).bytes().len() ==> {
                &&& r == Err::<Vec<u16>, Error>(Error::TryFromSliceError)
                &&& final(self).pos() == old(self).pos()
            },
    {
        if len > (self.data.len() - self.cursor) / 2 {
            return Err(Error::TryFromSliceError);
        }
        let mut v: Vec<u16> = Vec::new();
        let mut i: usize = 0;
        while i < len
            invariant
                i <= len,
                self.wf(),
                self.bytes() == old(self).bytes(),
                old(self).wf(),
                old(self).pos() + 2 * len <= old(self).bytes().len(),
                self.pos() == old(self).pos() + 2 * i,
                v@ == u16le_seq_at(old(self).bytes(), old(self).pos(), i as nat),
            decreases len - i,
        {
            let u = self.load_u16le();
            v.push(u);
            i = i + 1;
            proof {
                assert(v@ =~= u16le_seq_at(old(self).bytes(), old(self).pos(), i as nat));
            }
        }
        Ok(v)
    }

    /// Read little-endian 16-bit units up to and including the first zero
    /// unit, decode the units before it as UTF-16 text, and leave the
    /// cursor just past the zero unit.  Fails, changing nothing, if no
    /// zero unit is reachable or if the units do not decode.
    pub fn try_load_utf16le_sz(&mut self) -> (r: Result<String, Error>)
        requires
            old(self).wf(),
        ensures
            final(self).wf(),
            final(self).bytes() == old(self).bytes(),
            match r {
                Ok(s) => exists|k: int|
                    {
                        &&& #[trigger] zero_unit_at(old(self).bytes(), old(self).pos(), k)
                        &&& utf16_decode(
                            u16le_seq_at(old(self).bytes(), old(self).pos(), k as nat),
                        ) == Some(s@)
                        &&& final(self).pos() == old(self).pos() + 2 * k + 2
                    },
                Err(e) => {
                    &&& final(self).pos() == old(self).pos()
                    &&& if has_zero_unit(old(self).bytes(), old(self).pos()) {
                        &&& e == Error::FromUtf16Error
                        &&& forall|k: int|
                            #[trigger] zero_unit_at(old(self).bytes(), old(self).pos(), k)
                                ==> utf16_decode(
                                u16le_seq_at(old(self).bytes(), old(self).pos(), k as nat),
                            ) is None
                    } else {
                        e matches Error::String(m) && m@ == "utf16 terminator not found"@
                    }
                },
            },
    {
        let ghost start = self.pos();
        let mut units: Vec<u16> = Vec::new();
        let mut p: usize = self.cursor;
        loop
            invariant
                self.wf(),
                self.bytes() == old(self).bytes(),
                self.pos() == start,
                start == old(self).pos(),
                p == start + 2 * units@.len(),
                p <= self.bytes().len(),
                units@ == u16le_seq_at(self.bytes(), start, units@.len()),
                forall|i: int|
                    0 <= i < units@.len() ==> #[trigger] u16_at(self.bytes(), start + 2 * i) != 0,
            ensures
                self.wf(),
                self.bytes() == old(self).bytes(),
                self.pos() == start,
                start == old(self).pos(),
                p == start + 2 * units@.len(),
                p + 2 <= self.bytes().len(),
                units@ == u16le_seq_at(self.bytes(), start, units@.len()),
                zero_unit_at(self.bytes(), start, units@.len() as int),
            decreases self.bytes().len() - p,
        {
            if self.data.len() - p < 2 {
                proof {
                    let j = units@.len() as int;
                    assert forall|k: int| !zero_unit_at(self.bytes(), start, k) by {
                        if zero_unit_at(self.bytes(), start, k) {
                            if k < j {
                                assert(u16_at(self.bytes(), start + 2 * k) != 0);
                            } else {
                                assert(start + 2 * k + 2 > self.bytes().len());
                            }
                        }
                    }
                }
                return Err(Error::String("utf16 terminator not found".to_owned()));
            }
            let s = slice_subrange(self.data, p, p + 2);
            let u = u16_from_le_bytes(s);
            if u == 0 {
                proof {
                    let j = units@.len() as int;
                    assert(u16_at(self.bytes(), start + 2 * j) == 0);
                    assert(zero_unit_at(self.bytes(), start, j));
                }
                break;
            }
            units.push(u);
            p = p + 2;
            proof {
                assert(units@ =~= u16le_seq_at(self.bytes(), start, units@.len()));
            }
        }
        let ghost j = units@.len() as int;
        match utf16_units_to_string(&units) {
            Some(text) => {
                proof {
                    lemma_slice_len_fits(self.data);
                }
                self.cursor = p + 2;
                proof {
                    assert(zero_unit_at(old(self).bytes(), old(self).pos(), j));
                }
                Ok(text)
            },
            None => {
                proof {
                    assert forall|k: int|
                        #[trigger] zero_unit_at(old(self).bytes(), old(self).pos(), k)
                            implies utf16_decode(
                        u16le_seq_at(old(self).bytes(), old(self).pos(), k as nat),
                    ) is None by {
                        lemma_zero_unit_at_unique(old(self).bytes(), old(self).pos(), k, j);
                    }
                }
                Err(Error::FromUtf16Error)
            },
        }
    }

    /// Read the byte at the cursor and advance by one; the caller must
    /// have checked that a byte remains.
    pub fn load_u8(&mut self) -> (r: u8)
        requires
            old(self).wf(),
            old(self).pos() + 1 <= old(self).bytes().len(),
        ensures
            final(self).wf(),
            final(self).bytes() == old(self).bytes(),
            final(self).pos() == old(self).pos() + 1,
            r == old(self).bytes()[old(self).pos()],
    {
        proof {
            lemma_slice_len_fits(self.data);
        }
        let v = self.data[self.cursor];
        self.cursor = self.cursor + 1;
        v
    }

    /// Fallible form of [`Self::load_u8`]: fails, changing nothing, if no
    /// byte remains.
    pub fn try_load_u8(&mut self) -> (r: Result<u8, Error>)
        requires
            old(self).wf(),
        ensures
            final(self).wf(),
            final(self).bytes() == old(self).bytes(),
            old(self).pos() + 1 <= old(self).bytes().len() ==> {
                &&& r == Ok::<u8, Error>(old(self).bytes()[old(self).pos()])
                &&& final(self).pos() == old(self).pos() + 1
            },
            old(self).pos() + 1 > old(self).bytes().len() ==> {
                &&& r == Err::<u8, Error>(Error::TryFromSliceError)
                &&& final(self).pos() == old(self).pos()
            },
    {
        if self.data.len() - self.cursor < 1 {
            return Err(Error::TryFromSliceError);
        }
        Ok(self.load_u8())
    }

    /// Read a little-endian 16-bit value at the cursor and advance by two;
    /// the caller must have checked that two bytes remain.
    pub fn load_u16le(&mut self) -> (r: u16)
        requires
            old(self).wf(),
            old(self).pos() + 2 <= old(self).bytes().len(),
        ensures
            final(self).wf(),
            final(self).bytes() == old(self).bytes(),
            final(self).pos() == old(self).pos() + 2,
            r == u16_at(old(self).bytes(), old(self).pos()),
    {
        proof {
            lemma_slice_len_fits(self.data);
        }
        let s = slice_subrange(self.data, self.cursor, self.cursor + 2);
        let v = u16_from_le_bytes(s);
        self.cursor = self.cursor + 2;
        v
    }

    /// Fallible form of [`Self::load_u16le`]: fails, changing nothing, if
    /// fewer than two bytes remain.
    pub fn try_load_u16le(&mut self) -> (r: Result<u16, Error>)
        requires
            old(self).wf(),
        ensures
            final(self).wf(),
            final(self).bytes() == old(self).bytes(),
            old(self).pos() + 2 <= old(self).bytes().len() ==> {
                &&& r == Ok::<u16, Error>(u16_at(old(self).bytes(), old(self).pos()))
                &&& final(self).pos() == old(self).pos() + 2
            },
            old(self).pos() + 2 > old(self).bytes().len() ==> {
                &&& r == Err::<u16, Error>(Error::TryFromSliceError)
                &&& final(self).pos() == old(self).pos()
            },
    {
        if self.data.len() - self.cursor < 2 {
            return Err(Error::TryFromSliceError);
        }
        Ok(self.load_u16le())
    }

    /// Read a little-endian 32-bit value at the cursor and advance by
    /// four; the caller must have checked that four bytes remain.
    pub fn load_u32le(&mut self) -> (r: u32)
        requires
            old(self).wf(),
            old(self).pos() + 4 <= old(self).bytes().len(),
        ensures
            final(self).wf(),
            final(self).bytes() == old(self).bytes(),
            final(self).pos() == old(self).pos() + 4,
            r == spec_u32_from_le_bytes(
                old(self).bytes().subrange(old(self).pos(), old(self).pos() + 4),
            ),
    {
        proof {
            lemma_slice_len_fits(self.data);
        }
        let s = slice_subrange(self.data, self.cursor, self.cursor + 4);
        let v = u32_from_le_bytes(s);
        self.cursor = self.cursor + 4;
        v
    }

    /// Fallible form of [`Self::load_u32le`]: fails, changing nothing, if
    /// fewer than four bytes remain.
    pub fn try_load_u32le(&mut self) -> (r: Result<u32, Error>)
        requires
            old(self).wf(),
        ensures
            final(self).wf(),
            final(self).bytes() == old(self).bytes(),
            old(self).pos() + 4 <= old(self).bytes().len() ==> {
                &&& r == Ok::<u32, Error>(
                    spec_u32_from_le_bytes(
                        old(self).bytes().subrange(old(self).pos(), old(self).pos() + 4),
                    ),
                )
                &&& final(self).pos() == old(self).pos() + 4
            },
            old(self).pos() + 4 > old(self).bytes().len() ==> {
                &&& r == Err::<u32, Error>(Error::TryFromSliceError)
                &&& final(self).pos() == old(self).pos()
            },
    {
        if self.data.len() - self.cursor < 4 {
            return Err(Error::TryFromSliceError);
        }
        Ok(self.load_u32le())
    }

    /// Read a little-endian 64-bit value at the cursor and advance by
    /// eight; the caller must have checked that eight bytes remain.
    pub fn load_u64le(&mut self) -> (r: u64)
        requires
            old(self).wf(),
            old(self).pos() + 8 <= old(self).bytes().len(),
        ensures
            final(self).wf(),
            final(self).bytes() == old(self).bytes(),
            final(self).pos() == old(self).pos() + 8,
            r == spec_u64_from_le_bytes(
                old(self).bytes().subrange(old(self).pos(), old(self).pos() + 8),
            ),
    {
        proof {
            lemma_slice_len_fits(self.data);
        }
        let s = slice_subrange(self.data, self.cursor, self.cursor + 8);
        let v = u64_from_le_bytes(s);
        self.cursor = self.cursor + 8;
        v
    }

    /// Fallible form of [`Self::load_u64le`]: fails, changing nothing, if
    /// fewer than eight bytes remain.
    pub fn try_load_u64le(&mut self) -> (r: Result<u64, Error>)
        requires
            old(self).wf(),
        ensures
            final(self).wf(),
            final(self).bytes() == old(self).bytes(),
            old(self).pos() + 8 <= old(self).bytes().len() ==> {
                &&& r == Ok::<u64, Error>(
                    spec_u64_from_le_bytes(
                        old(self).bytes().subrange(old(self).pos(), old(self).pos() + 8),
                    ),
                )
                &&& final(self).pos() == old(self).pos() + 8
            },
            old(self).pos() + 8 > old(self).bytes().len() ==> {
                &&& r == Err::<u64, Error>(Error::TryFromSliceError)
                &&& final(self).pos() == old(self).pos()
            },
    {
        if self.data.len() - self.cursor < 8 {
            return Err(Error::TryFromSliceError);
        }
        Ok(self.load_u64le())
    }

    /// Dispatch to a capability type's own decode logic.
    pub fn load<S: Deserialize>(&mut self) -> (r: S)
        requires
            old(self).wf(),
        ensures
            final(self).wf(),
    {
        S::deserialize(self)
    }

    /// Dispatch to a capability type's own fallible decode logic.
    pub fn try_load<S: TryDeserialize>(&mut self) -> (r: Result<S, S::Error>)
        requires
            old(self).wf(),
        ensures
            final(self).wf(),
    {
        S::try_deserialize(self)
    }
}

/// A type that can construct itself by reading from a [`Deserializer`],
/// reporting a typed error when the input does not suit it.
pub trait TryDeserialize where Self: Sized {
    /// The error an implementation reports.
    type Error;

    /// Construct a value by reading from `src`.
    fn try_deserialize(src: &mut Deserializer<'_>) -> (r: Result<Self, Self::Error>)
        requires
            old(src).wf(),
        ensures
            final(src).wf(),
    ;
}

/// A type that can construct itself by reading from a [`Deserializer`],
/// assuming well-formed input.
pub trait Deserialize where Self: Sized {
    /// Construct a value by reading from `src`.
    fn deserialize(src: &mut Deserializer<'_>) -> (r: Self)
        requires
            old(src).wf(),
        ensures
            final(src).wf(),
    ;
}

/// A sequential, bounds-checked writer into an owned, fixed-capacity,
/// zero-initialised byte buffer.
pub struct Serializer {
    data: Vec<u8>,
    cursor: usize,
}

impl Default for Serializer {
    /// A writer with a 4096-byte buffer.
    fn default() -> (r: Serializer)
        ensures
            r.wf(),
            r.pos() == 0,
            r.capacity() == 4096,
            r.buf() == zero_bytes(4096),
    {
        Serializer::new(4096)
    }
}

impl Serializer {
    /// The whole underlying buffer, written and unwritten parts alike.
    pub closed spec fn buf(&self) -> Seq<u8> {
        self.data@
    }

    /// The cursor: the byte offset the next write starts at, and the
    /// length of the written prefix.
    pub closed spec fn pos(&self) -> int {
        self.cursor as int
    }

    /// The fixed buffer capacity in bytes.
    pub open spec fn capacity(&self) -> int {
        self.buf().len() as int
    }

    /// The cursor never leaves the buffer; every operation preserves this.
    pub open spec fn wf(&self) -> bool {
        0 <= self.pos() <= self.capacity()
    }

    /// A writer over a fresh zero-filled buffer of `len` bytes with the
    /// cursor at the start.  The capacity never changes afterwards.
    pub fn new(len: usize) -> (r: Serializer)
        ensures
            r.wf(),
            r.pos() == 0,
            r.capacity() == len,
            r.buf() == zero_bytes(len as nat),
    {
        let mut data: Vec<u8> = Vec::new();
        let mut i: usize = 0;
        while i < len
            invariant
                i <= len,
                data@.len() == i,
                forall|j: int| 0 <= j < i ==> data@[j] == 0,
            decreases len - i,
        {
            data.push(0);
            i = i + 1;
        }
        proof {
            assert(data@ =~= zero_bytes(len as nat));
        }
        Serializer { data, cursor: 0 }
    }

    /// The logically written length: the cursor position, not the
    /// capacity.
    pub fn len(&self) -> (r: usize)
        ensures
            r == self.pos(),
    {
        self.cursor
    }

    /// An owned copy of the written prefix.
    pub fn to_vec(&self) -> (r: Vec<u8>)
        requires
            self.wf(),
        ensures
            r@ == self.buf().subrange(0, self.pos()),
    {
        let s = slice_subrange(self.data.as_slice(), 0, self.cursor);
        slice_to_vec(s)
    }

    /// A borrowed view of the written prefix.
    pub fn as_slice<'slice>(&'slice self) -> (r: &'slice [u8])
        requires
            self.wf(),
        ensures
            r@ == self.buf().subrange(0, self.pos()),
    {
        slice_subrange(self.data.as_slice(), 0, self.cursor)
    }

    /// The single parameterized write every store goes through: place
    /// `bytes` at the cursor and advance past them.
    fn store_bytes(&mut self, bytes: &[u8])
        requires
            old(self).wf(),
            old(self).pos() + bytes@.len() <= old(self).capacity(),
        ensures
            final(self).wf(),
            final(self).capacity() == old(self).capacity(),
            final(self).pos() == old(self).pos() + bytes@.len(),
            final(self).buf() == splice(old(self).buf(), old(self).pos(), bytes@),
    {
        let n = bytes.len();
        let mut i: usize = 0;
        while i < n
            invariant
                i <= n,
                n == bytes@.len(),
                self.wf(),
                self.pos() == old(self).pos(),
                self.capacity() == old(self).capacity(),
                old(self).pos() + n <= old(self).capacity(),
                forall|j: int| 0 <= j < i ==> self.buf()[old(self).pos() + j] == bytes@[j],
                forall|j: int|
                    0 <= j < self.buf().len() && !(old(self).pos() <= j < old(self).pos() + i)
                        ==> self.buf()[j] == old(self).buf()[j],
            decreases n - i,
        {
            proof {
                lemma_vec_len_fits(&self.data);
            }
            self.data[self.cursor + i] = bytes[i];
            i = i + 1;
        }
        proof {
            lemma_vec_len_fits(&self.data);
        }
        self.cursor = self.cursor + n;
        proof {
            assert(self.buf() =~= splice(old(self).buf(), old(self).pos(), bytes@));
        }
    }

    /// Advance the cursor by `offset` bytes without writing; the caller
    /// must have checked that the buffer is long enough.
    pub fn offset(&mut self, offset: usize)
        requires
            old(self).wf(),
            old(self).pos() + offset <= old(self).capacity(),
        ensures
            final(self).wf(),
            final(self).buf() == old(self).buf(),
            final(self).pos() == old(self).pos() + offset,
    {
        proof {
            lemma_vec_len_fits(&self.data);
        }
        self.cursor = self.cursor + offset;
    }

    /// Fallible form of [`Self::offset`]: fails, changing nothing, if the
    /// new cursor would pass the end of the buffer.
    pub fn try_offset(&mut self, offset: usize) -> (r: Result<(), Error>)
        requires
            old(self).wf(),
        ensures
            final(self).wf(),
            final(self).buf() == old(self).buf(),
            old(self).pos() + offset <= old(self).capacity() ==> {
                &&& r is Ok
                &&& final(self).pos() == old(self).pos() + offset
            },
            old(self).pos() + offset > old(self).capacity() ==> {
                &&& r == Err::<(), Error>(
                    Error::TryOffsetError(
                        offset,
                        old(self).pos() as usize,
                        old(self).capacity() as usize,
                    ),
                )
                &&& final(self).pos() == old(self).pos()
            },
    {
        if offset > self.data.len() - self.cursor {
            return Err(Error::TryOffsetError(offset, self.cursor, self.data.len()));
        }
        self.cursor = self.cursor + offset;
        Ok(())
    }

    /// Write `offset` zero bytes and advance past them; the caller must
    /// have checked that the buffer is long enough.
    pub fn offset_with_zeros(&mut self, offset: usize)
        requires
            old(self).wf(),
            old(self).pos() + offset <= old(self).capacity(),
        ensures
            final(self).wf(),
            final(self).capacity() == old(self).capacity(),
            final(self).pos() == old(self).pos() + offset,
            final(self).buf() == splice(old(self).buf(), old(self).pos(), zero_bytes(offset as nat)),
    {
        let mut bs: Vec<u8> = Vec::new();
        let mut i: usize = 0;
        while i < offset
            invariant
                i <= offset,
                bs@.len() == i,
                forall|j: int| 0 <= j < i ==> bs@[j] == 0,
            decreases offset - i,
        {
            bs.push(0);
            i = i + 1;
        }
        proof {
            assert(bs@ =~= zero_bytes(offset as nat));
        }
        self.store_bytes(bs.as_slice());
    }

    /// Fallible form of [`Self::offset_with_zeros`]: fails, changing
    /// nothing, if the zeros would pass the end of the buffer.
    pub fn try_offset_with_zeros(&mut self, offset: usize) -> (r: Result<(), Error>)
        requires
            old(self).wf(),
        ensures
            final(self).wf(),
            final(self).capacity() == old(self).capacity(),
            old(self).pos() + offset <= old(self).capacity() ==> {
                &&& r is Ok
                &&& final(self).pos() == old(self).pos() + offset
                &&& final(self).buf() == splice(
                    old(self).buf(),
                    old(self).pos(),
                    zero_bytes(offset as nat),
                )
            },
            old(self).pos() + offset > old(self).capacity() ==> {
                &&& r == Err::<(), Error>(
                    Error::TryOffsetError(
                        offset,
                        old(self).pos() as usize,
                        old(self).capacity() as usize,
                    ),
                )
                &&& final(self).buf() == old(self).buf()
                &&& final(self).pos() == old(self).pos()
            },
    {
        if offset > self.data.len() - self.cursor {
            return Err(Error::TryOffsetError(offset, self.cursor, self.data.len()));
        }
        self.offset_with_zeros(offset);
        Ok(())
    }

    /// Advance the cursor to the next 4-byte boundary without writing; the
    /// caller must have checked that the boundary lies within the buffer.
    pub fn align_u32(&mut self)
        requires
            old(self).wf(),
            align_up(old(self).pos(), 4) <= old(self).capacity(),
        ensures
            final(self).wf(),
            final(self).buf() == old(self).buf(),
            final(self).pos() == align_up(old(self).pos(), 4),
    {
        let pad = self.align_pad(4);
        self.offset(pad);
    }

    /// Fallible form of [`Self::align_u32`]: fails, changing nothing, if
    /// the boundary lies past the end of the buffer.
    pub fn try_align_u32(&mut self) -> (r: Result<(), Error>)
        requires
            old(self).wf(),
        ensures
            final(self).wf(),
            final(self).buf() == old(self).buf(),
            align_up(old(self).pos(), 4) <= old(self).capacity() ==> {
                &&& r is Ok
                &&& final(self).pos() == align_up(old(self).pos(), 4)
            },
            align_up(old(self).pos(), 4) > old(self).capacity() ==> {
                &&& r == Err::<(), Error>(
                    Error::TryOffsetError(
                        (align_up(old(self).pos(), 4) - old(self).pos()) as usize,
                        old(self).pos() as usize,
                        old(self).capacity() as usize,
                    ),
                )
                &&& final(self).pos() == old(self).pos()
            },
    {
        let pad = self.align_pad(4);
        self.try_offset(pad)
    }

    /// Advance the cursor to the next 8-byte boundary without writing; the
    /// caller must have checked that the boundary lies within the buffer.
    pub fn align_u64(&mut self)
        requires
            old(self).wf(),
            align_up(old(self).pos(), 8) <= old(self).capacity(),
        ensures
            final(self).wf(),
            final(self).buf() == old(self).buf(),
            final(self).pos() == align_up(old(self).pos(), 8),
    {
        let pad = self.align_pad(8);
        self.offset(pad);
    }

    /// Fallible form of [`Self::align_u64`]: fails, changing nothing, if
    /// the boundary lies past the end of the buffer.
    pub fn try_align_u64(&mut self) -> (r: Result<(), Error>)
        requires
            old(self).wf(),
        ensures
            final(self).wf(),
            final(self).buf() == old(self).buf(),
            align_up(old(self).pos(), 8) <= old(self).capacity() ==> {
                &&& r is Ok
                &&& final(self).pos() == align_up(old(self).pos(), 8)
            },
            align_up(old(self).pos(), 8) > old(self).capacity() ==> {
                &&& r == Err::<(), Error>(
                    Error::TryOffsetError(
                        (align_up(old(self).pos(), 8) - old(self).pos()) as usize,
                        old(self).pos() as usize,
                        old(self).capacity() as usize,
                    ),
                )
                &&& final(self).pos() == old(self).pos()
            },
    {
        let pad = self.align_pad(8);
        self.try_offset(pad)
    }

    /// How many bytes lie between the cursor and the next multiple of
    /// `align`.
    fn align_pad(&self, align: usize) -> (r: usize)
        requires
            self.wf(),
            align > 0,
        ensures
            self.pos() + r == align_up(self.pos(), align as int),
    {
        let rem = self.cursor % align;
        proof {
            lemma_align_up(self.pos(), align as int);
        }
        if rem == 0 {
            0
        } else {
            align - rem
        }
    }

    /// Write one byte at the cursor and advance past it; the caller must
    /// have checked that a byte of room remains.
    pub fn store_u8(&mut self, v: u8)
        requires
            old(self).wf(),
            old(self).pos() + 1 <= old(self).capacity(),
        ensures
            final(self).wf(),
            final(self).capacity() == old(self).capacity(),
            final(self).pos() == old(self).pos() + 1,
            final(self).buf() == splice(old(self).buf(), old(self).pos(), seq![v]),
    {
        let mut bs: Vec<u8> = Vec::new();
        bs.push(v);
        proof {
            assert(bs@ =~= seq![v]);
        }
        self.store_bytes(bs.as_slice());
    }

    /// Fallible form of [`Self::store_u8`]: fails, changing nothing, if no
    /// room remains.
    pub fn try_store_u8(&mut self, v: u8) -> (r: Result<(), Error>)
        requires
            old(self).wf(),
        ensures
            final(self).wf(),
            final(self).capacity() == old(self).capacity(),
            old(self).pos() + 1 <= old(self).capacity() ==> {
                &&& r is Ok
                &&& final(self).pos() == old(self).pos() + 1
                &&& final(self).buf() == splice(old(self).buf(), old(self).pos(), seq![v])
            },
            old(self).pos() + 1 > old(self).capacity() ==> {
                &&& r == Err::<(), Error>(
                    Error::TryStoreError(
                        "u8",
                        old(self).pos() as usize,
                        old(self).capacity() as usize,
                    ),
                )
                &&& final(self).buf() == old(self).buf()
                &&& final(self).pos() == old(self).pos()
            },
    {
        if self.data.len() - self.cursor < 1 {
            return Err(Error::TryStoreError("u8", self.cursor, self.data.len()));
        }
        self.store_u8(v);
        Ok(())
    }

    /// Write a 16-bit value in little-endian order at the cursor and
    /// advance past it; the caller must have checked that two bytes of
    /// room remain.
    pub fn store_u16le(&mut self, v: u16)
        requires
            old(self).wf(),
            old(self).pos() + 2 <= old(self).capacity(),
        ensures
            final(self).wf(),
            final(self).capacity() == old(self).capacity(),
            final(self).pos() == old(self).pos() + 2,
            final(self).buf() == splice(old(self).buf(), old(self).pos(), spec_u16_to_le_bytes(v)),
    {
        let bs = u16_to_le_bytes(v);
        self.store_bytes(bs.as_slice());
    }

    /// Fallible form of [`Self::store_u16le`]: fails, changing nothing, if
    /// fewer than two bytes of room remain.
    pub fn try_store_u16le(&mut self, v: u16) -> (r: Result<(), Error>)
        requires
            old(self).wf(),
        ensures
            final(self).wf(),
            final(self).capacity() == old(self).capacity(),
            old(self).pos() + 2 <= old(self).capacity() ==> {
                &&& r is Ok
                &&& final(self).pos() == old(self).pos() + 2
                &&& final(self).buf() == splice(old(self).buf(), old(self).pos(), spec_u16_to_le_bytes(v))
            },
            old(self).pos() + 2 > old(self).capacity() ==> {
                &&& r == Err::<(), Error>(
                    Error::TryStoreError(
                        "u16",
                        old(self).pos() as usize,
                        old(self).capacity() as usize,
                    ),
                )
                &&& final(self).buf() == old(self).buf()
                &&& final(self).pos() == old(self).pos()
            },
    {
        if self.data.len() - self.cursor < 2 {
            return Err(Error::TryStoreError("u16", self.cursor, self.data.len()));
        }
        self.store_u16le(v);
        Ok(())
    }

    /// Write a 32-bit value in little-endian order at the cursor and
    /// advance past it; the caller must have checked that four bytes of
    /// room remain.
    pub fn store_u32le(&mut self, v: u32)
        requires
            old(self).wf(),
            old(self).pos() + 4 <= old(self).capacity(),
        ensures
            final(self).wf(),
            final(self).capacity() == old(self).capacity(),
            final(self).pos() == old(self).pos() + 4,
            final(self).buf() == splice(old(self).buf(), old(self).pos(), spec_u32_to_le_bytes(v)),
    {
        let bs = u32_to_le_bytes(v);
        self.store_bytes(bs.as_slice());
    }

    /// Fallible form of [`Self::store_u32le`]: fails, changing nothing, if
    /// fewer than four bytes of room remain.
    pub fn try_store_u32le(&mut self, v: u32) -> (r: Result<(), Error>)
        requires
            old(self).wf(),
        ensures
            final(self).wf(),
            final(self).capacity() == old(self).capacity(),
            old(self).pos() + 4 <= old(self).capacity() ==> {
                &&& r is Ok
                &&& final(self).pos() == old(self).pos() + 4
                &&& final(self).buf() == splice(old(self).buf(), old(self).pos(), spec_u32_to_le_bytes(v))
            },
            old(self).pos() + 4 > old(self).capacity() ==> {
                &&& r == Err::<(), Error>(
                    Error::TryStoreError(
                        "u32",
                        old(self).pos() as usize,
                        old(self).capacity() as usize,
                    ),
                )
                &&& final(self).buf() == old(self).buf()
                &&& final(self).pos() == old(self).pos()
            },
    {
        if self.data.len() - self.cursor < 4 {
            return Err(Error::TryStoreError("u32", self.cursor, self.data.len()));
        }
        self.store_u32le(v);
        Ok(())
    }

    /// Write a 64-bit value in little-endian order at the cursor and
    /// advance past it; the caller must have checked that eight bytes of
    /// room remain.
    pub fn store_u64le(&mut self, v: u64)
        requires
            old(self).wf(),
            old(self).pos() + 8 <= old(self).capacity(),
        ensures
            final(self).wf(),
            final(self).capacity() == old(self).capacity(),
            final(self).pos() == old(self).pos() + 8,
            final(self).buf() == splice(old(self).buf(), old(self).pos(), spec_u64_to_le_bytes(v)),
    {
        let bs = u64_to_le_bytes(v);
        self.store_bytes(bs.as_slice());
    }

    /// Fallible form of [`Self::store_u64le`]: fails, changing nothing, if
    /// fewer than eight bytes of room remain.
    pub fn try_store_u64le(&mut self, v: u64) -> (r: Result<(), Error>)
        requires
            old(self).wf(),
        ensures
            final(self).wf(),
            final(self).capacity() == old(self).capacity(),
            old(self).pos() + 8 <= old(self).capacity() ==> {
                &&& r is Ok
                &&& final(self).pos() == old(self).pos() + 8
                &&& final(self).buf() == splice(old(self).buf(), old(self).pos(), spec_u64_to_le_bytes(v))
            },
            old(self).pos() + 8 > old(self).capacity() ==> {
                &&& r == Err::<(), Error>(
                    Error::TryStoreError(
                        "u64",
                        old(self).pos() as usize,
                        old(self).capacity() as usize,
                    ),
                )
                &&& final(self).buf() == old(self).buf()
                &&& final(self).pos() == old(self).pos()
            },
    {
        if self.data.len() - self.cursor < 8 {
            return Err(Error::TryStoreError("u64", self.cursor, self.data.len()));
        }
        self.store_u64le(v);
        Ok(())
    }

    /// Widen each character of `text` to one little-endian 16-bit unit
    /// (characters above the 16-bit range are truncated, a documented
    /// limitation), append a zero terminator unit, and write the run at
    /// the cursor.  Fails, changing nothing, if the run would pass the end
    /// of the buffer.
    pub fn try_store_utf16le_sz(&mut self, text: &String) -> (r: Result<(), Error>)
        requires
            old(self).wf(),
        ensures
            final(self).wf(),
            final(self).capacity() == old(self).capacity(),
            old(self).pos() + 2 * (text@.len() + 1) <= old(self).capacity() ==> {
                &&& r is Ok
                &&& final(self).pos() == old(self).pos() + 2 * (text@.len() + 1)
                &&& final(self).buf() == splice(
                    old(self).buf(),
                    old(self).pos(),
                    units_le_bytes(units_of(text@).push(0u16)),
                )
            },
            old(self).pos() + 2 * (text@.len() + 1) > old(self).capacity() ==> {
                &&& r == Err::<(), Error>(
                    Error::TryStoreSliceError(
                        unit_run_byte_len(text@.len() + 1),
                        old(self).pos() as usize,
                        old(self).capacity() as usize,
                    ),
                )
                &&& final(self).buf() == old(self).buf()
                &&& final(self).pos() == old(self).pos()
            },
    {
        let n = text.as_str().unicode_len();
        let avail = self.data.len() - self.cursor;
        if avail / 2 < 1 || n > avail / 2 - 1 {
            let bytelen = n.wrapping_add(1).wrapping_mul(2);
            proof {
                lemma_unit_run_byte_len_wraps(n);
                assert(bytelen == unit_run_byte_len(text@.len() + 1));
            }
            return Err(Error::TryStoreSliceError(bytelen, self.cursor, self.data.len()));
        }
        let mut units: Vec<u16> = Vec::new();
        let mut i: usize = 0;
        while i < n
            invariant
                i <= n,
                n == text@.len(),
                units@ == units_of(text@.take(i as int)),
            decreases n - i,
        {
            let c = text.as_str().get_char(i);
            let u = (c as u32) as u16;
            units.push(u);
            i = i + 1;
            proof {
                assert(units@ =~= units_of(text@.take(i as int)));
            }
        }
        units.push(0);
        proof {
            assert(text@.take(n as int) =~= text@);
            assert(units@ =~= units_of(text@).push(0u16));
        }
        match self.try_store_u16le_slice(units.as_slice()) {
            Ok(()) => Ok(()),
            Err(e) => Err(e),
        }
    }

    /// Copy an arbitrary byte run to the cursor and advance past it.
    /// Fails, changing nothing, if the run would pass the end of the
    /// buffer.
    pub fn try_store_u8_slice(&mut self, vec: &[u8]) -> (r: Result<(), Error>)
        requires
            old(self).wf(),
        ensures
            final(self).wf(),
            final(self).capacity() == old(self).capacity(),
            old(self).pos() + vec@.len() <= old(self).capacity() ==> {
                &&& r is Ok
                &&& final(self).pos() == old(self).pos() + vec@.len()
                &&& final(self).buf() == splice(old(self).buf(), old(self).pos(), vec@)
            },
            old(self).pos() + vec@.len() > old(self).capacity() ==> {
                &&& r == Err::<(), Error>(
                    Error::TryStoreSliceError(
                        vec@.len() as usize,
                        old(self).pos() as usize,
                        old(self).capacity() as usize,
                    ),
                )
                &&& final(self).buf() == old(self).buf()
                &&& final(self).pos() == old(self).pos()
            },
    {
        if vec.len() > self.data.len() - self.cursor {
            return Err(Error::TryStoreSliceError(vec.len(), self.cursor, self.data.len()));
        }
        self.store_bytes(vec);
        Ok(())
    }

    /// Write each 16-bit unit of `vec` in little-endian byte order,
    /// element by element, and advance past the run.  Fails, changing
    /// nothing, if the run would pass the end of the buffer.
    pub fn try_store_u16le_slice(&mut self, vec: &[u16]) -> (r: Result<(), Error>)
        requires
            old(self).wf(),
        ensures
            final(self).wf(),
            final(self).capacity() == old(self).capacity(),
            old(self).pos() + 2 * vec@.len() <= old(self).capacity() ==> {
                &&& r is Ok
                &&& final(self).pos() == old(self).pos() + 2 * vec@.len()
                &&& final(self).buf() == splice(old(self).buf(), old(self).pos(), units_le_bytes(vec@))
            },
            old(self).pos() + 2 * vec@.len() > old(self).capacity() ==> {
                &&& r == Err::<(), Error>(
                    Error::TryStoreSliceError(
                        unit_run_byte_len(vec@.len()),
                        old(self).pos() as usize,
                        old(self).capacity() as usize,
                    ),
                )
                &&& final(self).buf() == old(self).buf()
                &&& final(self).pos() == old(self).pos()
            },
    {
        let avail = self.data.len() - self.cursor;
        if vec.len() > avail / 2 {
            let bytelen = vec.len().wrapping_mul(2);
            proof {
                assert(bytelen == unit_run_byte_len(vec@.len()));
            }
            return Err(Error::TryStoreSliceError(bytelen, self.cursor, self.data.len()));
        }
        let n = vec.len();
        let mut bs: Vec<u8> = Vec::new();
        let mut i: usize = 0;
        while i < n
            invariant
                i <= n,
                n == vec@.len(),
                bs@.len() == 2 * i,
                forall|j: int| 0 <= j < 2 * i ==> bs@[j] == units_le_bytes(vec@)[j],
            decreases n - i,
        {
            let ub = u16_to_le_bytes(vec[i]);
            bs.push(ub[0]);
            bs.push(ub[1]);
            proof {
                assert((2 * i as int) / 2 == i as int && (2 * i as int) % 2 == 0 && (2 * i as int
                    + 1) / 2 == i as int && (2 * i as int + 1) % 2 == 1) by (nonlinear_arith)
                    requires
                        0 <= i,
                ;
            }
            i = i + 1;
        }
        proof {
            assert(bs@ =~= units_le_bytes(vec@));
        }
        self.store_bytes(bs.as_slice());
        Ok(())
    }

    /// Dispatch to a capability type's own encode logic.
    pub fn store<S: Serialize>(&mut self, s: &S)
        requires
            old(self).wf(),
        ensures
            final(self).wf(),
    {
        s.serialize(self);
    }

    /// Dispatch to a capability type's own fallible encode logic.
    pub fn try_store<S: TrySerialize>(&mut self, s: &S) -> (r: Result<(), S::Error>)
        requires
            old(self).wf(),
        ensures
            final(self).wf(),
    {
        s.try_serialize(self)
    }
}

/// A type that can write itself into a [`Serializer`], reporting a typed
/// error when it does not fit.
pub trait TrySerialize {
    /// The error an implementation reports.
    type Error;

    /// Write `self` into `dest`.
    fn try_serialize(&self, dest: &mut Serializer) -> (r: Result<(), Self::Error>)
        requires
            old(dest).wf(),
        ensures
            final(dest).wf(),
    ;
}

/// A type that can write itself into a [`Serializer`], assuming it fits.
pub trait Serialize {
    /// Write `self` into `dest`.
    fn serialize(&self, dest: &mut Serializer)
        requires
            old(dest).wf(),
        ensures
            final(dest).wf(),
    ;
}

/// Decode a run of 16-bit units as UTF-16 text: non-surrogate units stand
/// for themselves and surrogate pairs combine; a lone or misordered
/// surrogate makes the whole run invalid.
fn utf16_units_to_string(units: &Vec<u16>) -> (r: Option<String>)
    ensures
        r is Some <==> utf16_decode(units@) is Some,
        r matches Some(s) ==> Some(s@) == utf16_decode(units@),
{
    let n = units.len();
    let mut out = String::new();
    let mut i: usize = 0;
    proof {
        assert(units@.skip(0) =~= units@);
        if utf16_decode(units@) is Some {
            assert(out@ + utf16_decode(units@).unwrap() =~= utf16_decode(units@).unwrap());
        }
    }
    while i < n
        invariant
            i <= n,
            n == units@.len(),
            match utf16_decode(units@.skip(i as int)) {
                Some(rest) => utf16_decode(units@) == Some(out@ + rest),
                None => utf16_decode(units@) is None,
            },
        decreases n - i,
    {
        let ghost tail = units@.skip(i as int);
        let ghost out0 = out@;
        let u = units[i];
        if !(0xD800 <= u && u <= 0xDFFF) {
            proof {
                assert(!is_surrogate(u));
                assert(is_scalar(u as u32));
            }
            let c = char_from_u32(u as u32).unwrap();
            push_char(&mut out, c);
            i = i + 1;
            proof {
                char_u32_cast(c, u as u32);
                assert(tail[0] == u);
                assert(tail.skip(1) =~= units@.skip(i as int));
                assert(out@ == out0.push(c));
                assert(out@.drop_last() =~= out0);
                lemma_decode_step_one(units@, i as int - 1, out@, c);
            }
        } else if u <= 0xDBFF && i + 1 < n && 0xDC00 <= units[i + 1] && units[i + 1] <= 0xDFFF {
            let lo = units[i + 1];
            let code: u32 = 0x10000u32 + ((u - 0xD800u16) as u32) * 0x400u32 + ((lo
                - 0xDC00u16) as u32);
            proof {
                assert(is_high_surrogate(u) && is_low_surrogate(lo));
                assert(code == pair_code(u, lo));
                assert(is_scalar(code));
            }
            let c = char_from_u32(code).unwrap();
            push_char(&mut out, c);
            i = i + 2;
            proof {
                char_u32_cast(c, code);
                assert(tail[0] == u && tail[1] == lo);
                assert(tail.skip(2) =~= units@.skip(i as int));
                assert(out@ == out0.push(c));
                assert(out@.drop_last() =~= out0);
                lemma_decode_step_two(units@, i as int - 2, out@, c);
            }
        } else {
            proof {
                assert(utf16_decode(tail) is None);
            }
            return None;
        }
    }
    proof {
        assert(units@.skip(n as int) =~= Seq::<u16>::empty());
        assert(utf16_decode(units@) == Some(out@ + Seq::<char>::empty()));
        assert(out@ + Seq::<char>::empty() =~= out@);
    }
    Some(out)
}

/// One step of the decode loop: consuming a single non-surrogate unit at
/// position `i` extends the decoded prefix by its character.
proof fn lemma_decode_step_one(units: Seq<u16>, i: int, prefix: Seq<char>, c: char)
    requires
        0 <= i < units.len(),
        !is_surrogate(units[i]),
        c == crate::encoding::bmp_char(units[i]),
        prefix.len() > 0 && prefix.last() == c,
        match utf16_decode(units.skip(i)) {
            Some(rest) => utf16_decode(units) == Some(prefix.drop_last() + rest),
            None => utf16_decode(units) is None,
        },
    ensures
        match utf16_decode(units.skip(i + 1)) {
            Some(rest) => utf16_decode(units) == Some(prefix + rest),
            None => utf16_decode(units) is None,
        },
{
    let tail = units.skip(i);
    assert(tail[0] == units[i]);
    assert(tail.skip(1) =~= units.skip(i + 1));
    match utf16_decode(units.skip(i + 1)) {
        Some(rest) => {
            assert(utf16_decode(tail) == Some(seq![c] + rest));
            assert(prefix.drop_last() + (seq![c] + rest) =~= prefix + rest);
        },
        None => {
            assert(utf16_decode(tail) is None);
        },
    }
}

/// One step of the decode loop: consuming a surrogate pair at positions
/// `i` and `i + 1` extends the decoded prefix by the combined character.
proof fn lemma_decode_step_two(units: Seq<u16>, i: int, prefix: Seq<char>, c: char)
    requires
        0 <= i,
        i + 2 <= units.len(),
        is_high_surrogate(units[i]),
        is_low_surrogate(units[i + 1]),
        c == pair_char(units[i], units[i + 1]),
        prefix.len() > 0 && prefix.last() == c,
        match utf16_decode(units.skip(i)) {
            Some(rest) => utf16_decode(units) == Some(prefix.drop_last() + rest),
            None => utf16_decode(units) is None,
        },
    ensures
        match utf16_decode(units.skip(i + 2)) {
            Some(rest) => utf16_decode(units) == Some(prefix + rest),
            None => utf16_decode(units) is None,
        },
{
    let tail = units.skip(i);
    assert(tail[0] == units[i]);
    assert(tail[1] == units[i + 1]);
    assert(tail.skip(2) =~= units.skip(i + 2));
    assert(is_surrogate(tail[0]));
    match utf16_decode(units.skip(i + 2)) {
        Some(rest) => {
            assert(utf16_decode(tail) == Some(seq![c] + rest));
            assert(prefix.drop_last() + (seq![c] + rest) =~= prefix + rest);
        },
        None => {
            assert(utf16_decode(tail) is None);
        },
    }
}

/// Relies on char::from_u32: it returns a character exactly on Unicode
/// scalar values, and that character carries the given value.
#[verifier::external_body]
fn char_from_u32(u: u32) -> (r: Option<char>)
    ensures
        r is Some <==> is_scalar(u),
        r matches Some(c) ==> c as u32 == u,
{
    char::from_u32(u)
}

/// Relies on String::push: it appends exactly one character.
#[verifier::external_body]
fn push_char(s: &mut String, c: char)
    ensures
        final(s)@ == old(s)@.push(c),
{
    s.push(c);
}

/// Write a 64-bit value in little-endian order at the start of `dest`;
/// the stateless form for callers that keep no cursor.  Returns the width
/// written.
pub fn store_u64le(dest: &mut [u8], v: u64) -> (r: usize)
    requires
        old(dest)@.len() >= 8,
    ensures
        final(dest)@ == splice(old(dest)@, 0, spec_u64_to_le_bytes(v)),
        r == 8,
{
    let bs = u64_to_le_bytes(v);
    write_at_start(dest, bs.as_slice());
    8
}

/// Write a 32-bit value in little-endian order at the start of `dest`;
/// the stateless form for callers that keep no cursor.  Returns the width
/// written.
pub fn store_u32le(dest: &mut [u8], v: u32) -> (r: usize)
    requires
        old(dest)@.len() >= 4,
    ensures
        final(dest)@ == splice(old(dest)@, 0, spec_u32_to_le_bytes(v)),
        r == 4,
{
    let bs = u32_to_le_bytes(v);
    write_at_start(dest, bs.as_slice());
    4
}

/// Write a 16-bit value in little-endian order at the start of `dest`;
/// the stateless form for callers that keep no cursor.  Returns the width
/// written.
pub fn store_u16le(dest: &mut [u8], v: u16) -> (r: usize)
    requires
        old(dest)@.len() >= 2,
    ensures
        final(dest)@ == splice(old(dest)@, 0, spec_u16_to_le_bytes(v)),
        r == 2,
{
    let bs = u16_to_le_bytes(v);
    write_at_start(dest, bs.as_slice());
    2
}

/// Write one byte at the start of `dest`; the stateless form for callers
/// that keep no cursor.  Returns the width written.
pub fn store_u8(dest: &mut [u8], v: u8) -> (r: usize)
    requires
        old(dest)@.len() >= 1,
    ensures
        final(dest)@ == splice(old(dest)@, 0, seq![v]),
        r == 1,
{
    let mut bs: Vec<u8> = Vec::new();
    bs.push(v);
    proof {
        assert(bs@ =~= seq![v]);
    }
    write_at_start(dest, bs.as_slice());
    1
}

/// Copy `bytes` over the start of `dest`, leaving the rest unchanged.
fn write_at_start(dest: &mut [u8], bytes: &[u8])
    requires
        bytes@.len() <= old(dest)@.len(),
    ensures
        final(dest)@ == splice(old(dest)@, 0, bytes@),
{
    let n = bytes.len();
    let mut i: usize = 0;
    while i < n
        invariant
            i <= n,
            n == bytes@.len(),
            dest@.len() == old(dest)@.len(),
            n <= dest@.len(),
            forall|j: int| 0 <= j < i ==> dest@[j] == bytes@[j],
            forall|j: int| i <= j < dest@.len() ==> dest@[j] == old(dest)@[j],
        decreases n - i,
    {
        dest[i] = bytes[i];
        i = i + 1;
    }
    proof {
        assert(dest@ =~= splice(old(dest)@, 0, bytes@));
    }
}

/// Read a little-endian 64-bit value from the start of `src`; the
/// stateless form for callers that keep no cursor.
pub fn load_u64le(src: &[u8]) -> (r: u64)
    requires
        src@.len() >= 8,
    ensures
        r == spec_u64_from_le_bytes(src@.subrange(0, 8)),
{
    u64_from_le_bytes(slice_subrange(src, 0, 8))
}

/// Read a little-endian 32-bit value from the start of `src`; the
/// stateless form for callers that keep no cursor.
pub fn load_u32le(src: &[u8]) -> (r: u32)
    requires
        src@.len() >= 4,
    ensures
        r == spec_u32_from_le_bytes(src@.subrange(0, 4)),
{
    u32_from_le_bytes(slice_subrange(src, 0, 4))
}

/// Read a little-endian 16-bit value from the start of `src`; the
/// stateless form for callers that keep no cursor.
pub fn load_u16le(src: &[u8]) -> (r: u16)
    requires
        src@.len() >= 2,
    ensures
        r == u16_at(src@, 0),
{
    u16_from_le_bytes(slice_subrange(src, 0, 2))
}

/// Read the byte at the start of `src`; the stateless form for callers
/// that keep no cursor.
pub fn load_u8(src: &[u8]) -> (r: u8)
    requires
        src@.len() >= 1,
    ensures
        r == src@[0],
{
    src[0]
}

} // verus!
