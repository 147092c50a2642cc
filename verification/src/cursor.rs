//! A read cursor over a byte slice and the Protocol 18 primitive readers.
use vstd::prelude::*;
use vstd::arithmetic::power2::{pow2, lemma2_to64, lemma2_to64_rest};
use byteorder::{BigEndian, ByteOrder, LittleEndian};
use crate::wire::{utf8_lossy, string_at, after, be32, byte_or_zero, compressed_u32, compressed_u64, compressed_i32, compressed_i64, fits, i16_or_zero, le16, le32, le64, signed16, u16_or_zero, u32_or_zero, u64_or_zero, varint_scan, zigzag};

verus! {

/// Reads `LittleEndian::read_u16` from byteorder on the two bytes at `pos`.
/// Claimed: the result is the little-endian value of those two bytes.
#[verifier::external_body]
fn le_u16(buf: &[u8], pos: usize) -> (r: u16)
    requires
        pos + 2 <= buf@.len(),
    ensures
        r == le16(buf@, pos as int),
{
    LittleEndian::read_u16(&buf[pos..])
}

/// Reads `LittleEndian::read_i16` from byteorder on the two bytes at `pos`.
/// Claimed: the result is the two's complement reading of their
/// little-endian value.
#[verifier::external_body]
fn le_i16(buf: &[u8], pos: usize) -> (r: i16)
    requires
        pos + 2 <= buf@.len(),
    ensures
        r == signed16(le16(buf@, pos as int)),
{
    LittleEndian::read_i16(&buf[pos..])
}

/// Reads `LittleEndian::read_u32` from byteorder on the four bytes at `pos`.
/// Claimed: the result is the little-endian value of those four bytes.
#[verifier::external_body]
fn le_u32(buf: &[u8], pos: usize) -> (r: u32)
    requires
        pos + 4 <= buf@.len(),
    ensures
        r == le32(buf@, pos as int),
{
    LittleEndian::read_u32(&buf[pos..])
}

/// Reads `LittleEndian::read_u64` from byteorder on the eight bytes at `pos`.
/// Claimed: the result is the little-endian value of those eight bytes.
#[verifier::external_body]
fn le_u64(buf: &[u8], pos: usize) -> (r: u64)
    requires
        pos + 8 <= buf@.len(),
    ensures
        r == le64(buf@, pos as int),
{
    LittleEndian::read_u64(&buf[pos..])
}

/// Reads `BigEndian::read_u32` from byteorder on the four bytes at `pos`.
/// Claimed: the result is the big-endian value of those four bytes.
#[verifier::external_body]
pub(crate) fn be_u32(buf: &[u8], pos: usize) -> (r: u32)
    requires
        pos + 4 <= buf@.len(),
    ensures
        r == be32(buf@, pos as int),
{
    BigEndian::read_u32(&buf[pos..])
}

/// Calls `String::from_utf8_lossy` and takes the owned text.
/// Claimed: the text is `utf8_lossy` of the bytes, a function of the bytes
/// alone, and bytes that are valid UTF-8 come back as the text they encode.
#[verifier::external_body]
fn lossy_string(bytes: &[u8]) -> (s: String)
    ensures
        s@ == utf8_lossy(bytes@),
        vstd::utf8::valid_utf8(bytes@) ==> s@ == vstd::utf8::decode_utf8(bytes@),
{
    String::from_utf8_lossy(bytes).into_owned()
}

/// A position in a borrowed byte slice, never past its end.
pub struct Cursor<'a> {
    data: &'a [u8],
    pos: usize,
}

impl<'a> Cursor<'a> {
    #[verifier::type_invariant]
    spec fn within(self) -> bool {
        self.pos <= self.data@.len()
    }

    /// The bytes the cursor reads.
    pub closed spec fn data(self) -> Seq<u8> {
        self.data@
    }

    /// The current position (the type's invariant keeps it within the data).
    pub closed spec fn pos(self) -> int {
        if self.pos <= self.data@.len() {
            self.pos as int
        } else {
            self.data@.len() as int
        }
    }

    /// The position never passes the end of the data.
    pub proof fn lemma_within(self)
        ensures
            0 <= self.pos() <= self.data().len(),
    {
    }

    /// Takes the next `n` bytes.
    pub fn take(&mut self, n: usize) -> (r: &'a [u8])
        requires
            old(self).pos() + n <= old(self).data().len(),
        ensures
            final(self).data() == old(self).data(),
            final(self).pos() == old(self).pos() + n,
            r@ == old(self).data().subrange(old(self).pos(), old(self).pos() + n),
    {
        proof { use_type_invariant(&*self); }
        let start = self.pos;
        let len = self.data.len();
        assert(start + n <= len);
        self.pos = start + n;
        &self.data[start..start + n]
    }

    /// Moves to the end of the data.
    pub fn skip_to_end(&mut self)
        ensures
            final(self).data() == old(self).data(),
            final(self).pos() == old(self).data().len(),
    {
        self.pos = self.data.len();
    }

    /// A cursor at the start of `data`.
    pub fn new(data: &'a [u8]) -> (c: Self)
        ensures
            c.data() == data@,
            c.pos() == 0,
    {
        Cursor { data, pos: 0 }
    }

    /// The current position.
    pub fn position(&self) -> (r: usize)
        ensures
            r == self.pos(),
            r <= self.data().len(),
    {
        proof { use_type_invariant(self); }
        self.pos
    }

    /// The bytes the cursor reads.
    pub fn get_ref(&self) -> (r: &'a [u8])
        ensures
            r@ == self.data(),
    {
        self.data
    }

    /// The number of bytes after the position.
    pub fn remaining(&self) -> (r: usize)
        ensures
            r == self.data().len() - self.pos(),
            self.pos() <= self.data().len(),
    {
        proof { use_type_invariant(self); }
        self.data.len() - self.pos
    }

    /// Reads one byte; `None` at the end.
    pub fn read_u8(&mut self) -> (r: Option<u8>)
        ensures
            final(self).data() == old(self).data(),
            final(self).pos() == after(old(self).data(), old(self).pos(), 1),
            r == (if old(self).pos() < old(self).data().len() {
                Some(old(self).data()[old(self).pos()])
            } else {
                None::<u8>
            }),
    {
        proof { use_type_invariant(&*self); }
        if self.pos < self.data.len() {
            let b = self.data[self.pos];
            self.pos = self.pos + 1;
            Some(b)
        } else {
            None
        }
    }

    /// One byte, or 0 at the end.
    pub fn read_u8_or_zero(&mut self) -> (r: u8)
        ensures
            final(self).data() == old(self).data(),
            final(self).pos() == after(old(self).data(), old(self).pos(), 1),
            r == byte_or_zero(old(self).data(), old(self).pos()),
    {
        match self.read_u8() {
            Some(b) => b,
            None => 0,
        }
    }

    /// Moves the position over `k` bytes, or to the end when fewer remain.
    /// Returns whether the `k` bytes were there.
    fn skip_fixed(&mut self, k: usize) -> (ok: bool)
        ensures
            final(self).data() == old(self).data(),
            final(self).pos() == after(old(self).data(), old(self).pos(), k as int),
            ok == fits(old(self).data(), old(self).pos(), k as int),
    {
        proof { use_type_invariant(&*self); }
        if k <= self.data.len() - self.pos {
            self.pos = self.pos + k;
            true
        } else {
            self.pos = self.data.len();
            false
        }
    }

    /// A little-endian `u16`, or 0 when fewer than two bytes remain.
    pub fn read_u16_or_zero(&mut self) -> (r: u16)
        ensures
            final(self).data() == old(self).data(),
            final(self).pos() == after(old(self).data(), old(self).pos(), 2),
            r == u16_or_zero(old(self).data(), old(self).pos()),
    {
        proof { use_type_invariant(&*self); }
        let p = self.pos;
        if self.skip_fixed(2) {
            le_u16(self.data, p)
        } else {
            0
        }
    }

    /// A little-endian `i16`, or 0 when fewer than two bytes remain.
    pub fn read_i16_or_zero(&mut self) -> (r: i16)
        ensures
            final(self).data() == old(self).data(),
            final(self).pos() == after(old(self).data(), old(self).pos(), 2),
            r == i16_or_zero(old(self).data(), old(self).pos()),
    {
        proof { use_type_invariant(&*self); }
        let p = self.pos;
        if self.skip_fixed(2) {
            le_i16(self.data, p)
        } else {
            0
        }
    }

    /// The bits of a little-endian 32-bit word, or 0 when fewer than four bytes remain.
    pub fn read_u32_or_zero(&mut self) -> (r: u32)
        ensures
            final(self).data() == old(self).data(),
            final(self).pos() == after(old(self).data(), old(self).pos(), 4),
            r == u32_or_zero(old(self).data(), old(self).pos()),
    {
        proof { use_type_invariant(&*self); }
        let p = self.pos;
        if self.skip_fixed(4) {
            le_u32(self.data, p)
        } else {
            0
        }
    }

    /// The bits of a little-endian 64-bit word, or 0 when fewer than eight bytes remain.
    pub fn read_u64_or_zero(&mut self) -> (r: u64)
        ensures
            final(self).data() == old(self).data(),
            final(self).pos() == after(old(self).data(), old(self).pos(), 8),
            r == u64_or_zero(old(self).data(), old(self).pos()),
    {
        proof { use_type_invariant(&*self); }
        let p = self.pos;
        if self.skip_fixed(8) {
            le_u64(self.data, p)
        } else {
            0
        }
    }
}

proof fn lemma_group32(value: u32, x: u32, i: nat)
    requires
        i < 5,
        x < 128,
        value < pow2(7 * i),
    ensures
        (value | (x << ((7 * i) as u32))) as int == (value + x * pow2(7 * i)) % 0x1_0000_0000,
{
    lemma2_to64();
    if i == 0 {
        assert(pow2(0) == 1);
        assert((value | (x << 0u32)) == value + x) by (bit_vector)
            requires value < 1, x < 128;
    } else if i == 1 {
        assert(pow2(7) == 0x80);
        assert((value | (x << 7u32)) == value + x * 0x80) by (bit_vector)
            requires value < 0x80, x < 128;
    } else if i == 2 {
        assert(pow2(14) == 0x4000);
        assert((value | (x << 14u32)) == value + x * 0x4000) by (bit_vector)
            requires value < 0x4000, x < 128;
    } else if i == 3 {
        assert(pow2(21) == 0x20_0000);
        assert((value | (x << 21u32)) == value + x * 0x20_0000) by (bit_vector)
            requires value < 0x20_0000, x < 128;
    } else {
        assert(pow2(28) == 0x1000_0000);
        assert((value | (x << 28u32)) as int == (value + x * 0x1000_0000) % 0x1_0000_0000) by (bit_vector)
            requires value < 0x1000_0000, x < 128;
    }
}

/// Reads a compressed 32-bit unsigned integer.
pub fn read_compressed_uint32(cursor: &mut Cursor) -> (r: u32)
    ensures
        final(cursor).data() == old(cursor).data(),
        (r, final(cursor).pos()) == compressed_u32(old(cursor).data(), old(cursor).pos()),
        old(cursor).pos() <= final(cursor).pos() <= final(cursor).data().len(),
        r != 0 ==> final(cursor).pos() > old(cursor).pos(),
{
    let ghost d = cursor.data();
    let ghost p = cursor.pos();
    let mut value: u32 = 0;
    let mut shift: u32 = 0;
    let ghost mut i: nat = 0;
    let ghost mut acc: nat = 0;
    proof {
        lemma2_to64();
        cursor.lemma_within();
    }
    loop
        invariant
            d == old(cursor).data(),
            p == old(cursor).pos(),
            0 <= p <= d.len(),
            cursor.data() == d,
            i < 5,
            shift == 7 * i,
            cursor.pos() == p + i,
            acc < pow2(7 * i),
            value == acc,
            varint_scan(d, p, 0, 5, 0) == varint_scan(d, p, i, 5, acc),
        decreases 5 - i,
    {
        let b = match cursor.read_u8() {
            Some(v) => v,
            None => {
                return 0;
            },
        };
        let x = (b % 128) as u32;
        proof { lemma_group32(value, x, i); }
        let ghost acc2: nat = acc + (x as nat) * pow2(7 * i);
        value = value | (x << shift);
        if b < 0x80 {
            proof {
                lemma_acc_bound(acc, x as nat, i);
            }
            return value;
        }
        shift = shift + 7;
        if shift >= 35 {
            assert(varint_scan(d, p, i + 1, 5, acc2) == (0nat, p + 5, false));
            return 0;
        }
        proof {
            lemma_acc_bound(acc, x as nat, i);
            assert(pow2(7 * (i + 1)) <= 0x1000_0000) by {
                lemma2_to64();
                if i == 0 { assert(7 * (i + 1) == 7); } else if i == 1 { assert(7 * (i + 1) == 14); }
                else if i == 2 { assert(7 * (i + 1) == 21); } else { assert(7 * (i + 1) == 28); }
            }
            i = i + 1;
            acc = acc2;
        }
    }
}

proof fn lemma_acc_bound(acc: nat, x: nat, i: nat)
    requires
        acc < pow2(7 * i),
        x < 128,
    ensures
        acc + x * pow2(7 * i) < pow2(7 * (i + 1)),
{
    vstd::arithmetic::power2::lemma_pow2_adds(7 * i, 7);
    lemma2_to64();
    assert(pow2(7 * (i + 1)) == pow2(7 * i) * 128) by {
        assert(7 * (i + 1) == 7 * i + 7);
    }
    assert(x * pow2(7 * i) <= 127 * pow2(7 * i)) by (nonlinear_arith)
        requires x < 128;
}


proof fn lemma_group64(value: u64, x: u64, i: nat)
    requires
        i < 10,
        x < 128,
        value < pow2(7 * i),
    ensures
        (value | (x << ((7 * i) as u64))) as int == (value + x * pow2(7 * i)) % 0x1_0000_0000_0000_0000,
{
    lemma2_to64();
    lemma2_to64_rest();
    if i == 0 {
        assert(pow2(0) == 0x1);
        assert((value | (x << 0u64)) == value + x * 0x1) by (bit_vector)
            requires value < 0x1, x < 128;
    } else if i == 1 {
        assert(pow2(7) == 0x80);
        assert((value | (x << 7u64)) == value + x * 0x80) by (bit_vector)
            requires value < 0x80, x < 128;
    } else if i == 2 {
        assert(pow2(14) == 0x4000);
        assert((value | (x << 14u64)) == value + x * 0x4000) by (bit_vector)
            requires value < 0x4000, x < 128;
    } else if i == 3 {
        assert(pow2(21) == 0x200000);
        assert((value | (x << 21u64)) == value + x * 0x200000) by (bit_vector)
            requires value < 0x200000, x < 128;
    } else if i == 4 {
        assert(pow2(28) == 0x10000000);
        assert((value | (x << 28u64)) == value + x * 0x10000000) by (bit_vector)
            requires value < 0x10000000, x < 128;
    } else if i == 5 {
        assert(pow2(35) == 0x800000000);
        assert((value | (x << 35u64)) == value + x * 0x800000000) by (bit_vector)
            requires value < 0x800000000, x < 128;
    } else if i == 6 {
        assert(pow2(42) == 0x40000000000);
        assert((value | (x << 42u64)) == value + x * 0x40000000000) by (bit_vector)
            requires value < 0x40000000000, x < 128;
    } else if i == 7 {
        assert(pow2(49) == 0x2000000000000);
        assert((value | (x << 49u64)) == value + x * 0x2000000000000) by (bit_vector)
            requires value < 0x2000000000000, x < 128;
    } else if i == 8 {
        assert(pow2(56) == 0x100000000000000);
        assert((value | (x << 56u64)) == value + x * 0x100000000000000) by (bit_vector)
            requires value < 0x100000000000000, x < 128;
    } else {
        assert(pow2(63) == 0x8000000000000000);
        assert((value | (x << 63u64)) as int == (value + x * 0x8000000000000000) % 0x1_0000_0000_0000_0000) by (bit_vector)
            requires value < 0x8000000000000000, x < 128;
    }
}

/// Reads a compressed 64-bit unsigned integer.
pub fn read_compressed_uint64(cursor: &mut Cursor) -> (r: u64)
    ensures
        final(cursor).data() == old(cursor).data(),
        (r, final(cursor).pos()) == compressed_u64(old(cursor).data(), old(cursor).pos()),
        old(cursor).pos() <= final(cursor).pos() <= final(cursor).data().len(),
        r != 0 ==> final(cursor).pos() > old(cursor).pos(),
{
    let ghost d = cursor.data();
    let ghost p = cursor.pos();
    let mut value: u64 = 0;
    let mut shift: u32 = 0;
    let ghost mut i: nat = 0;
    let ghost mut acc: nat = 0;
    proof {
        lemma2_to64();
        cursor.lemma_within();
    }
    loop
        invariant
            d == old(cursor).data(),
            p == old(cursor).pos(),
            0 <= p <= d.len(),
            cursor.data() == d,
            i < 10,
            shift == 7 * i,
            cursor.pos() == p + i,
            acc < pow2(7 * i),
            value == acc,
            varint_scan(d, p, 0, 10, 0) == varint_scan(d, p, i, 10, acc),
        decreases 10 - i,
    {
        let b = match cursor.read_u8() {
            Some(v) => v,
            None => {
                return 0;
            },
        };
        let x = (b % 128) as u64;
        proof { lemma_group64(value, x, i); }
        let ghost acc2: nat = acc + (x as nat) * pow2(7 * i);
        value = value | (x << shift);
        if b < 0x80 {
            return value;
        }
        shift = shift + 7;
        if shift >= 70 {
            assert(varint_scan(d, p, i + 1, 10, acc2) == (0nat, p + 10, false));
            return 0;
        }
        proof {
            lemma_acc_bound(acc, x as nat, i);
            assert(pow2(7 * (i + 1)) <= 0x8000_0000_0000_0000) by {
                lemma2_to64();
                lemma2_to64_rest();
                assert(7 * (i + 1) <= 63);
                if 7 * (i + 1) < 63 {
                    vstd::arithmetic::power2::lemma_pow2_strictly_increases(7 * (i + 1), 63);
                }
            }
            i = i + 1;
            acc = acc2;
        }
    }
}

/// Reads a compressed 32-bit signed integer (zigzag encoded).
pub fn read_compressed_int32(cursor: &mut Cursor) -> (r: i32)
    ensures
        final(cursor).data() == old(cursor).data(),
        (r, final(cursor).pos()) == compressed_i32(old(cursor).data(), old(cursor).pos()),
        old(cursor).pos() <= final(cursor).pos() <= final(cursor).data().len(),
{
    let v = read_compressed_uint32(cursor);
    let half = (v / 2) as i32;
    let r = if v % 2 == 0 {
        half
    } else {
        -half - 1
    };
    r
}

/// Reads a compressed 64-bit signed integer (zigzag encoded).
pub fn read_compressed_int64(cursor: &mut Cursor) -> (r: i64)
    ensures
        final(cursor).data() == old(cursor).data(),
        (r, final(cursor).pos()) == compressed_i64(old(cursor).data(), old(cursor).pos()),
        old(cursor).pos() <= final(cursor).pos() <= final(cursor).data().len(),
{
    let v = read_compressed_uint64(cursor);
    let half = (v / 2) as i64;
    let r = if v % 2 == 0 {
        half
    } else {
        -half - 1
    };
    r
}

/// Reads a length-prefixed string.  A zero length, or one that runs past the
/// end, gives the empty string and consumes only the length; bytes that are
/// valid UTF-8 give the text they encode.
pub fn read_string(cursor: &mut Cursor) -> (s: String)
    ensures
        final(cursor).data() == old(cursor).data(),
        (s@, final(cursor).pos()) == string_at(old(cursor).data(), old(cursor).pos()),
        old(cursor).pos() <= final(cursor).pos() <= final(cursor).data().len(),
        ({
            let (n, q) = compressed_u32(old(cursor).data(), old(cursor).pos());
            let bytes = old(cursor).data().subrange(q, q + n);
            n != 0 && n <= old(cursor).data().len() - q && vstd::utf8::valid_utf8(bytes) ==> s@
                == vstd::utf8::decode_utf8(bytes)
        }),
{
    let n = read_compressed_uint32(cursor);
    let rem = cursor.remaining();
    if n == 0 || n as usize > rem {
        return String::new();
    }
    let bytes = cursor.take(n as usize);
    lossy_string(bytes)
}

} // verus!
