//! The Protocol 18 wire format, stated over byte sequences.
//!
//! Every reader is modelled as a function from the whole input `d` and a
//! position `p` to what it yields and the position after it.  A read of a
//! fixed number of bytes that runs past the end yields nothing and leaves the
//! position at the end of the input, as a byte cursor does.
use vstd::prelude::*;
use vstd::arithmetic::power2::pow2;

verus! {

/// The position after a fixed-size read of `k` bytes at `p`.
pub open spec fn after(d: Seq<u8>, p: int, k: int) -> int {
    if p + k <= d.len() {
        p + k
    } else {
        d.len() as int
    }
}

/// Whether `k` bytes can be read at `p`.
pub open spec fn fits(d: Seq<u8>, p: int, k: int) -> bool {
    0 <= p && p + k <= d.len()
}

/// A 16-bit little-endian unsigned integer at `p`.
pub open spec fn le16(d: Seq<u8>, p: int) -> int {
    d[p] + 256 * d[p + 1]
}

/// A 32-bit little-endian unsigned integer at `p`.
pub open spec fn le32(d: Seq<u8>, p: int) -> int {
    le16(d, p) + 65536 * le16(d, p + 2)
}

/// A 64-bit little-endian unsigned integer at `p`.
pub open spec fn le64(d: Seq<u8>, p: int) -> int {
    le32(d, p) + 0x1_0000_0000 * le32(d, p + 4)
}

/// A 32-bit big-endian unsigned integer at `p`.
pub open spec fn be32(d: Seq<u8>, p: int) -> int {
    0x100_0000 * d[p] + 0x1_0000 * d[p + 1] + 0x100 * d[p + 2] + d[p + 3]
}

/// The two's complement reading of a 16-bit pattern.
pub open spec fn signed16(u: int) -> int {
    if u < 0x8000 {
        u
    } else {
        u - 0x1_0000
    }
}

/// A single byte, or 0 past the end.
pub open spec fn byte_or_zero(d: Seq<u8>, p: int) -> u8 {
    if 0 <= p < d.len() {
        d[p]
    } else {
        0
    }
}

/// A little-endian `u16`, or 0 when fewer than two bytes remain.
pub open spec fn u16_or_zero(d: Seq<u8>, p: int) -> u16 {
    if fits(d, p, 2) {
        le16(d, p) as u16
    } else {
        0
    }
}

/// A little-endian `i16`, or 0 when fewer than two bytes remain.
pub open spec fn i16_or_zero(d: Seq<u8>, p: int) -> i16 {
    if fits(d, p, 2) {
        signed16(le16(d, p)) as i16
    } else {
        0
    }
}

/// The bits of a little-endian 32-bit word, or 0 when fewer than four bytes remain.
pub open spec fn u32_or_zero(d: Seq<u8>, p: int) -> u32 {
    if fits(d, p, 4) {
        le32(d, p) as u32
    } else {
        0
    }
}

/// The bits of a little-endian 64-bit word, or 0 when fewer than eight bytes remain.
pub open spec fn u64_or_zero(d: Seq<u8>, p: int) -> u64 {
    if fits(d, p, 8) {
        le64(d, p) as u64
    } else {
        0
    }
}

/// Scans a base-128 varint at `p`: the low seven bits of the byte at `p + j`
/// weigh `2^(7j)`; a byte below 0x80 ends it.  `acc` holds the groups already
/// read (`i` of them).  Yields the weighted sum, the position after, and
/// whether a final byte was found within `max` bytes.
pub open spec fn varint_scan(d: Seq<u8>, p: int, i: nat, max: nat, acc: nat) -> (nat, int, bool)
    decreases max - i,
{
    if i >= max {
        (0, p + i, false)
    } else if !(0 <= p + i < d.len()) {
        (0, d.len() as int, false)
    } else {
        let g = d[p + i];
        let acc2 = acc + (g % 128) as nat * pow2(7 * i);
        if g < 128 {
            (acc2, p + i + 1, true)
        } else {
            varint_scan(d, p, i + 1, max, acc2)
        }
    }
}

/// A compressed 32-bit unsigned integer: a varint of at most five bytes, taken
/// modulo 2^32; 0 when it is cut off or longer than five bytes.
pub open spec fn compressed_u32(d: Seq<u8>, p: int) -> (u32, int) {
    let (v, q, ok) = varint_scan(d, p, 0, 5, 0);
    (if ok { (v % 0x1_0000_0000) as u32 } else { 0 }, q)
}

/// A compressed 64-bit unsigned integer: a varint of at most ten bytes, taken
/// modulo 2^64; 0 when it is cut off or longer than ten bytes.
pub open spec fn compressed_u64(d: Seq<u8>, p: int) -> (u64, int) {
    let (v, q, ok) = varint_scan(d, p, 0, 10, 0);
    (if ok { (v % 0x1_0000_0000_0000_0000) as u64 } else { 0 }, q)
}

/// Zigzag decoding: even numbers map to their half, odd numbers to the
/// negative of their half, minus one.
pub open spec fn zigzag(v: int) -> int {
    if v % 2 == 0 {
        v / 2
    } else {
        -(v / 2) - 1
    }
}

/// A compressed signed 32-bit integer.
pub open spec fn compressed_i32(d: Seq<u8>, p: int) -> (i32, int) {
    let (v, q) = compressed_u32(d, p);
    (zigzag(v as int) as i32, q)
}

/// A compressed signed 64-bit integer.
pub open spec fn compressed_i64(d: Seq<u8>, p: int) -> (i64, int) {
    let (v, q) = compressed_u64(d, p);
    (zigzag(v as int) as i64, q)
}


/// The base-128 encoding of `v`: seven bits to a byte, least significant
/// group first, the high bit set on every byte but the last.
pub open spec fn leb128(v: nat) -> Seq<u8>
    decreases v,
{
    if v < 128 {
        seq![v as u8]
    } else {
        seq![(v % 128 + 128) as u8] + leb128(v / 128)
    }
}

/// The zigzag encoding of a signed number: `2x` for `x >= 0`, `-2x - 1` below.
pub open spec fn zigzag_encode(x: int) -> nat {
    if x >= 0 {
        (2 * x) as nat
    } else {
        (-2 * x - 1) as nat
    }
}

proof fn lemma_leb128_len(v: nat, k: nat)
    requires
        1 <= k,
        v < pow2(7 * k),
    ensures
        1 <= leb128(v).len() <= k,
    decreases v,
{
    if v >= 128 {
        vstd::arithmetic::power2::lemma2_to64();
        if k == 1 {
            assert(pow2(7) == 128);
        }
        let q = pow2((7 * (k - 1)) as nat);
        vstd::arithmetic::power2::lemma_pow2_adds((7 * (k - 1)) as nat, 7);
        assert(7 * (k - 1) + 7 == 7 * k);
        assert(pow2(7 * k) == q * 128);
        vstd::arithmetic::power2::lemma_pow2_pos((7 * (k - 1)) as nat);
        assert(v / 128 < q) by (nonlinear_arith)
            requires
                v < q * 128,
                q > 0,
        ;
        lemma_leb128_len(v / 128, (k - 1) as nat);
    }
}

proof fn lemma_scan_leb128(d: Seq<u8>, p: int, i: nat, max: nat, acc: nat, w: nat)
    requires
        0 <= p,
        p + i + leb128(w).len() <= d.len(),
        i + leb128(w).len() <= max,
        d.subrange(p + i, p + i + leb128(w).len()) == leb128(w),
    ensures
        varint_scan(d, p, i, max, acc) == (acc + w * pow2(7 * i), p + i + leb128(w).len(), true),
    decreases w,
{
    let e = leb128(w);
    assert(d[p + i] == d.subrange(p + i, p + i + e.len())[0]);
    let g = d[p + i];
    let pw = pow2(7 * i);
    if w < 128 {
        assert(g == w);
    } else {
        let rest = leb128(w / 128);
        assert(e == seq![(w % 128 + 128) as u8] + rest);
        assert(g % 128 == w % 128);
        assert(d.subrange(p + (i + 1), p + (i + 1) + rest.len()) =~= rest) by {
            assert forall|x: int| 0 <= x < rest.len() implies d[p + i + 1 + x] == rest[x] by {
                assert(d[p + i + 1 + x] == d.subrange(p + i, p + i + e.len())[1 + x]);
            }
        }
        let acc2 = acc + (g % 128) as nat * pw;
        lemma_scan_leb128(d, p, i + 1, max, acc2, w / 128);
        vstd::arithmetic::power2::lemma2_to64();
        vstd::arithmetic::power2::lemma_pow2_adds(7 * i, 7);
        assert(7 * (i + 1) == 7 * i + 7);
        assert(pow2(7 * (i + 1)) == pw * 128);
        assert(w == 128 * (w / 128) + w % 128);
        assert((w % 128) * pw + (w / 128) * (pw * 128) == w * pw) by (nonlinear_arith)
            requires
                w == 128 * (w / 128) + w % 128,
        ;
    }
}

/// A compressed 32-bit unsigned integer reads back as the value it encodes:
/// whatever follows, the value is `v` and the read ends just after its
/// encoding.
pub proof fn lemma_compressed_u32_round_trip(d: Seq<u8>, p: int, v: u32)
    requires
        0 <= p,
        p + leb128(v as nat).len() <= d.len(),
        d.subrange(p, p + leb128(v as nat).len()) == leb128(v as nat),
    ensures
        compressed_u32(d, p) == (v, p + leb128(v as nat).len()),
{
    vstd::arithmetic::power2::lemma2_to64();
    vstd::arithmetic::power2::lemma_pow2_strictly_increases(32, 35);
    lemma_leb128_len(v as nat, 5);
    lemma_scan_leb128(d, p, 0, 5, 0, v as nat);
    assert(7 * 0 == 0);
    assert(pow2(0) == 1);
    assert((v as nat) * 1 == v);
    assert((v as nat) % 0x1_0000_0000 == v);
}

/// A compressed 64-bit unsigned integer reads back as the value it encodes.
pub proof fn lemma_compressed_u64_round_trip(d: Seq<u8>, p: int, v: u64)
    requires
        0 <= p,
        p + leb128(v as nat).len() <= d.len(),
        d.subrange(p, p + leb128(v as nat).len()) == leb128(v as nat),
    ensures
        compressed_u64(d, p) == (v, p + leb128(v as nat).len()),
{
    vstd::arithmetic::power2::lemma2_to64();
    vstd::arithmetic::power2::lemma_pow2_strictly_increases(64, 70);
    lemma_leb128_len(v as nat, 10);
    lemma_scan_leb128(d, p, 0, 10, 0, v as nat);
    assert(7 * 0 == 0);
    assert(pow2(0) == 1);
    assert((v as nat) * 1 == v);
    assert((v as nat) % 0x1_0000_0000_0000_0000 == v);
}

proof fn lemma_zigzag_round_trip(x: int)
    ensures
        zigzag(zigzag_encode(x) as int) == x,
{
}

/// A compressed signed 32-bit integer reads back as the value whose zigzag
/// encoding was written.
pub proof fn lemma_compressed_i32_round_trip(d: Seq<u8>, p: int, x: i32)
    requires
        0 <= p,
        p + leb128(zigzag_encode(x as int)).len() <= d.len(),
        d.subrange(p, p + leb128(zigzag_encode(x as int)).len()) == leb128(zigzag_encode(x as int)),
    ensures
        compressed_i32(d, p) == (x, p + leb128(zigzag_encode(x as int)).len()),
{
    let z = zigzag_encode(x as int);
    assert(z <= u32::MAX);
    lemma_compressed_u32_round_trip(d, p, z as u32);
    lemma_zigzag_round_trip(x as int);
}

/// A compressed signed 64-bit integer reads back as the value whose zigzag
/// encoding was written.
pub proof fn lemma_compressed_i64_round_trip(d: Seq<u8>, p: int, x: i64)
    requires
        0 <= p,
        p + leb128(zigzag_encode(x as int)).len() <= d.len(),
        d.subrange(p, p + leb128(zigzag_encode(x as int)).len()) == leb128(zigzag_encode(x as int)),
    ensures
        compressed_i64(d, p) == (x, p + leb128(zigzag_encode(x as int)).len()),
{
    let z = zigzag_encode(x as int);
    assert(z <= u64::MAX);
    lemma_compressed_u64_round_trip(d, p, z as u64);
    lemma_zigzag_round_trip(x as int);
}

pub const TYPE_UNKNOWN: u8 = 0;
pub const TYPE_BOOLEAN: u8 = 2;
pub const TYPE_BYTE: u8 = 3;
pub const TYPE_SHORT: u8 = 4;
pub const TYPE_FLOAT: u8 = 5;
pub const TYPE_DOUBLE: u8 = 6;
pub const TYPE_STRING: u8 = 7;
pub const TYPE_NULL: u8 = 8;
pub const TYPE_COMPRESSED_INT: u8 = 9;
pub const TYPE_COMPRESSED_LONG: u8 = 10;
pub const TYPE_INT1: u8 = 11;
pub const TYPE_INT1_NEG: u8 = 12;
pub const TYPE_INT2: u8 = 13;
pub const TYPE_INT2_NEG: u8 = 14;
pub const TYPE_LONG1: u8 = 15;
pub const TYPE_LONG1_NEG: u8 = 16;
pub const TYPE_LONG2: u8 = 17;
pub const TYPE_LONG2_NEG: u8 = 18;
pub const TYPE_CUSTOM: u8 = 19;
pub const TYPE_DICTIONARY: u8 = 20;
pub const TYPE_HASHTABLE: u8 = 21;
pub const TYPE_OBJECT_ARRAY: u8 = 23;
pub const TYPE_OPERATION_REQUEST: u8 = 24;
pub const TYPE_OPERATION_RESPONSE: u8 = 25;
pub const TYPE_EVENT_DATA: u8 = 26;
pub const TYPE_BOOL_FALSE: u8 = 27;
pub const TYPE_BOOL_TRUE: u8 = 28;
pub const TYPE_SHORT_ZERO: u8 = 29;
pub const TYPE_INT_ZERO: u8 = 30;
pub const TYPE_LONG_ZERO: u8 = 31;
pub const TYPE_FLOAT_ZERO: u8 = 32;
pub const TYPE_DOUBLE_ZERO: u8 = 33;
pub const TYPE_BYTE_ZERO: u8 = 34;
pub const TYPE_ARRAY: u8 = 0x40;
pub const CUSTOM_TYPE_SLIM_BASE: u8 = 0x80;

/// The text that `String::from_utf8_lossy` makes of a byte sequence: invalid
/// sequences become U+FFFD.
pub uninterp spec fn utf8_lossy(bytes: Seq<u8>) -> Seq<char>;

/// A decoded Protocol 18 value.  Floating-point numbers are held as their
/// IEEE-754 bit patterns; a dictionary is the sequence of its entries in the
/// order they were read.
pub enum SpecValue {
    Null,
    Bool(bool),
    Byte(u8),
    Short(i16),
    Int(i32),
    Long(i64),
    Float(u32),
    Double(u64),
    String(Seq<char>),
    Array(Seq<SpecValue>),
    Dictionary(Seq<(SpecValue, SpecValue)>),
    ObjectArray(Seq<SpecValue>),
    Custom { id: u8, data: Seq<u8> },
    OperationRequest { op_code: u8, params: Map<u8, SpecValue> },
    OperationResponse { op_code: u8, return_code: i16, debug_message: Seq<char>, params: Map<u8, SpecValue> },
    EventData { code: u8, params: Map<u8, SpecValue> },
}

/// `n` zero bytes.
pub open spec fn zeros(n: nat) -> Seq<u8> {
    Seq::new(n, |i: int| 0u8)
}

/// The `n` bytes at `p`, or `n` zero bytes when fewer remain (an exact read
/// that fails leaves its buffer untouched).
pub open spec fn bytes_or_zeros(d: Seq<u8>, p: int, n: nat) -> Seq<u8> {
    if fits(d, p, n as int) {
        d.subrange(p, p + n)
    } else {
        zeros(n)
    }
}

/// A length-prefixed string: empty when the length is 0 or runs past the end
/// (then only the length is consumed).
pub open spec fn string_at(d: Seq<u8>, p: int) -> (Seq<char>, int) {
    let (n, q) = compressed_u32(d, p);
    if n == 0 || n > d.len() - q {
        (Seq::<char>::empty(), q)
    } else {
        (utf8_lossy(d.subrange(q, q + n)), q + n)
    }
}

/// The payload of a custom value with the given id.  When the declared size
/// runs past the end, a slim custom value takes what remains and any other
/// custom value is `Null`.
pub open spec fn custom_payload(d: Seq<u8>, p: int, id: u8, slim: bool) -> (SpecValue, int) {
    let (n, q) = compressed_u32(d, p);
    if n > d.len() - q {
        if slim {
            (SpecValue::Custom { id, data: d.subrange(q, d.len() as int) }, d.len() as int)
        } else {
            (SpecValue::Null, q)
        }
    } else {
        (SpecValue::Custom { id, data: d.subrange(q, q + n) }, q + n)
    }
}

/// A custom value under type code `gp`: codes from 0x80 on carry the id in
/// their low seven bits (slim); otherwise the id is the next byte.
pub open spec fn custom_at(d: Seq<u8>, p: int, gp: u8) -> (SpecValue, int) {
    if gp >= CUSTOM_TYPE_SLIM_BASE {
        custom_payload(d, p, (gp - 0x80) as u8, true)
    } else {
        custom_payload(d, after(d, p, 1), byte_or_zero(d, p), false)
    }
}

/// `n` non-slim custom payloads with the same id.
pub open spec fn custom_items(d: Seq<u8>, p: int, id: u8, n: nat, acc: Seq<SpecValue>) -> (Seq<SpecValue>, int)
    decreases n,
{
    if n == 0 {
        (acc, p)
    } else {
        let (v, q) = custom_payload(d, p, id, false);
        custom_items(d, q, id, (n - 1) as nat, acc.push(v))
    }
}

/// The type codes whose values hold no nested values.
pub open spec fn is_scalar_code(tc: u8) -> bool {
    tc == TYPE_UNKNOWN || tc == TYPE_NULL || (TYPE_BOOLEAN <= tc <= TYPE_STRING) || (TYPE_COMPRESSED_INT
        <= tc <= TYPE_LONG2_NEG) || (TYPE_BOOL_FALSE <= tc <= TYPE_BYTE_ZERO)
}

/// A value whose type code has no nested values.
pub open spec fn scalar_at(d: Seq<u8>, p: int, tc: u8) -> (SpecValue, int) {
    if tc == TYPE_BOOLEAN {
        (SpecValue::Bool(byte_or_zero(d, p) != 0), after(d, p, 1))
    } else if tc == TYPE_BYTE {
        (SpecValue::Byte(byte_or_zero(d, p)), after(d, p, 1))
    } else if tc == TYPE_SHORT {
        (SpecValue::Short(i16_or_zero(d, p)), after(d, p, 2))
    } else if tc == TYPE_FLOAT {
        (SpecValue::Float(u32_or_zero(d, p)), after(d, p, 4))
    } else if tc == TYPE_DOUBLE {
        (SpecValue::Double(u64_or_zero(d, p)), after(d, p, 8))
    } else if tc == TYPE_STRING {
        let (s, q) = string_at(d, p);
        (SpecValue::String(s), q)
    } else if tc == TYPE_COMPRESSED_INT {
        let (v, q) = compressed_i32(d, p);
        (SpecValue::Int(v), q)
    } else if tc == TYPE_COMPRESSED_LONG {
        let (v, q) = compressed_i64(d, p);
        (SpecValue::Long(v), q)
    } else if tc == TYPE_INT1 {
        (SpecValue::Int(byte_or_zero(d, p) as i32), after(d, p, 1))
    } else if tc == TYPE_INT1_NEG {
        (SpecValue::Int((-(byte_or_zero(d, p) as int)) as i32), after(d, p, 1))
    } else if tc == TYPE_INT2 {
        (SpecValue::Int(u16_or_zero(d, p) as i32), after(d, p, 2))
    } else if tc == TYPE_INT2_NEG {
        (SpecValue::Int((-(u16_or_zero(d, p) as int)) as i32), after(d, p, 2))
    } else if tc == TYPE_LONG1 {
        (SpecValue::Long(byte_or_zero(d, p) as i64), after(d, p, 1))
    } else if tc == TYPE_LONG1_NEG {
        (SpecValue::Long((-(byte_or_zero(d, p) as int)) as i64), after(d, p, 1))
    } else if tc == TYPE_LONG2 {
        (SpecValue::Long(u16_or_zero(d, p) as i64), after(d, p, 2))
    } else if tc == TYPE_LONG2_NEG {
        (SpecValue::Long((-(u16_or_zero(d, p) as int)) as i64), after(d, p, 2))
    } else if tc == TYPE_BOOL_FALSE {
        (SpecValue::Bool(false), p)
    } else if tc == TYPE_BOOL_TRUE {
        (SpecValue::Bool(true), p)
    } else if tc == TYPE_SHORT_ZERO {
        (SpecValue::Short(0), p)
    } else if tc == TYPE_INT_ZERO {
        (SpecValue::Int(0), p)
    } else if tc == TYPE_LONG_ZERO {
        (SpecValue::Long(0), p)
    } else if tc == TYPE_FLOAT_ZERO {
        (SpecValue::Float(0), p)
    } else if tc == TYPE_DOUBLE_ZERO {
        (SpecValue::Double(0), p)
    } else if tc == TYPE_BYTE_ZERO {
        (SpecValue::Byte(0), p)
    } else {
        (SpecValue::Null, p)
    }
}

/// Bit `k` (0 = least significant) of byte `b`.
pub open spec fn bit_of(b: u8, k: u8) -> bool {
    (b >> k) & 1u8 == 1u8
}

/// `n` booleans packed eight to a byte, least significant bit first.
pub open spec fn unpack_bools(packed: Seq<u8>, n: nat) -> Seq<SpecValue> {
    Seq::new(n, |i: int| SpecValue::Bool(bit_of(packed[i / 8], (i % 8) as u8)))
}

/// Bytes as `Byte` values.
pub open spec fn byte_values(bytes: Seq<u8>) -> Seq<SpecValue> {
    Seq::new(bytes.len(), |i: int| SpecValue::Byte(bytes[i]))
}

/// Reads a value of type code `tc` at `p`.
pub open spec fn value_at(d: Seq<u8>, p: int, tc: u8) -> (SpecValue, int)
    decreases d.len() - p, 3int, 0int,
{
    if !(0 <= p <= d.len()) {
        (SpecValue::Null, p)
    } else if tc >= CUSTOM_TYPE_SLIM_BASE {
        custom_at(d, p, tc)
    } else if is_scalar_code(tc) {
        scalar_at(d, p, tc)
    } else if tc == TYPE_CUSTOM {
        custom_at(d, p, 0)
    } else if tc == TYPE_DICTIONARY || tc == TYPE_HASHTABLE {
        dictionary_at(d, p)
    } else if tc == TYPE_OBJECT_ARRAY {
        let (n, q) = compressed_u32(d, p);
        let (items, r) = object_items(d, q, n as nat, d.len() - p, Seq::empty());
        (SpecValue::ObjectArray(items), r)
    } else if tc == TYPE_OPERATION_REQUEST {
        let (params, q) = param_table(d, after(d, p, 1), d.len() - p);
        (SpecValue::OperationRequest { op_code: byte_or_zero(d, p), params }, q)
    } else if tc == TYPE_OPERATION_RESPONSE {
        let p1 = after(d, p, 1);
        let p2 = after(d, p1, 2);
        let (msg, p3) = if 0 <= p2 < d.len() {
            let (v, q) = value_at(d, p2 + 1, d[p2]);
            (
                match v {
                    SpecValue::String(s) => s,
                    _ => Seq::<char>::empty(),
                },
                q,
            )
        } else {
            (Seq::<char>::empty(), p2)
        };
        let (params, q) = param_table(d, p3, d.len() - p);
        (
            SpecValue::OperationResponse {
                op_code: byte_or_zero(d, p),
                return_code: i16_or_zero(d, p1),
                debug_message: msg,
                params,
            },
            q,
        )
    } else if tc == TYPE_EVENT_DATA {
        let (params, q) = param_table(d, after(d, p, 1), d.len() - p);
        (SpecValue::EventData { code: byte_or_zero(d, p), params }, q)
    } else if tc == TYPE_ARRAY {
        let (n, q) = compressed_u32(d, p);
        let (items, r) = items_at(d, after(d, q, 1), byte_or_zero(d, q), n as nat, d.len() - p, Seq::empty());
        (SpecValue::Array(items), r)
    } else if tc > TYPE_ARRAY {
        typed_array_at(d, p, (tc - TYPE_ARRAY) as u8)
    } else {
        (SpecValue::Null, p)
    }
}

/// An array whose elements all have type code `elem`.
pub open spec fn typed_array_at(d: Seq<u8>, p: int, elem: u8) -> (SpecValue, int)
    decreases d.len() - p, 2int, 0int,
{
    let (n, q) = compressed_u32(d, p);
    if !(0 <= p <= d.len()) {
        (SpecValue::Null, p)
    } else if elem == TYPE_BOOLEAN {
        let packed = ((n as nat) + 7) / 8;
        (SpecValue::Array(unpack_bools(bytes_or_zeros(d, q, packed), n as nat)), after(d, q, packed as int))
    } else if elem == TYPE_BYTE {
        (SpecValue::Array(byte_values(bytes_or_zeros(d, q, n as nat))), after(d, q, n as int))
    } else if elem == TYPE_CUSTOM {
        let (items, r) = custom_items(d, after(d, q, 1), byte_or_zero(d, q), n as nat, Seq::empty());
        (SpecValue::Array(items), r)
    } else {
        let (items, r) = items_at(d, q, elem, n as nat, d.len() - p, Seq::empty());
        (SpecValue::Array(items), r)
    }
}

/// A dictionary: key type, value type (0 = given per entry), count, entries.
pub open spec fn dictionary_at(d: Seq<u8>, p: int) -> (SpecValue, int)
    decreases d.len() - p, 1int, 0int,
{
    if !(0 <= p <= d.len()) {
        (SpecValue::Null, p)
    } else {
        let p1 = after(d, p, 1);
        let p2 = after(d, p1, 1);
        let (n, p3) = compressed_u32(d, p2);
        let (entries, r) = dict_entries(
            d,
            p3,
            byte_or_zero(d, p),
            byte_or_zero(d, p1),
            n as nat,
            d.len() - p,
            Seq::empty(),
        );
        (SpecValue::Dictionary(entries), r)
    }
}

/// `n` values of type code `tc`, appended to `acc`.  Each is read at a
/// position strictly inside the enclosing value (`d.len() - p < bound`).
pub open spec fn items_at(d: Seq<u8>, p: int, tc: u8, n: nat, bound: int, acc: Seq<SpecValue>) -> (
    Seq<SpecValue>,
    int,
)
    decreases bound, 0int, n,
{
    if n == 0 {
        (acc, p)
    } else if !(0 <= p <= d.len() && d.len() - p < bound) {
        (acc, p)
    } else {
        let (v, q) = value_at(d, p, tc);
        items_at(d, q, tc, (n - 1) as nat, bound, acc.push(v))
    }
}

/// `n` values each preceded by its own type code, appended to `acc`.
pub open spec fn object_items(d: Seq<u8>, p: int, n: nat, bound: int, acc: Seq<SpecValue>) -> (
    Seq<SpecValue>,
    int,
)
    decreases bound, 0int, n,
{
    if n == 0 {
        (acc, p)
    } else if !(0 <= p <= d.len() && d.len() - p < bound) {
        (acc, p)
    } else {
        let (v, q) = value_at(d, after(d, p, 1), byte_or_zero(d, p));
        object_items(d, q, (n - 1) as nat, bound, acc.push(v))
    }
}

/// Whether single-precision bits are a NaN.
pub open spec fn is_nan32(x: u32) -> bool {
    (x & 0x7f80_0000u32) == 0x7f80_0000u32 && (x & 0x007f_ffffu32) != 0u32
}

/// Whether double-precision bits are a NaN.
pub open spec fn is_nan64(x: u64) -> bool {
    (x & 0x7ff0_0000_0000_0000u64) == 0x7ff0_0000_0000_0000u64 && (x & 0x000f_ffff_ffff_ffffu64) != 0u64
}

/// Numeric equality of two single-precision numbers given by their bits:
/// a NaN equals nothing, and the two zeros are equal.
pub open spec fn float32_eq(x: u32, y: u32) -> bool {
    !is_nan32(x) && !is_nan32(y) && (x == y || ((x & 0x7fff_ffffu32) == 0u32 && (y & 0x7fff_ffffu32) == 0u32))
}

/// Numeric equality of two double-precision numbers given by their bits.
pub open spec fn float64_eq(x: u64, y: u64) -> bool {
    !is_nan64(x) && !is_nan64(y) && (x == y || ((x & 0x7fff_ffff_ffff_ffffu64) == 0u64 && (y
        & 0x7fff_ffff_ffff_ffffu64) == 0u64))
}

/// Equality of decoded values: variant by variant and field by field,
/// numbers by numeric equality, dictionaries as maps (the same number of
/// entries, and each entry of `a` matched by an entry of `b` with an equal
/// key and an equal value), parameter tables key by key.
pub open spec fn values_eq(a: SpecValue, b: SpecValue) -> bool
    decreases a, 0int,
{
    match a {
        SpecValue::Null => b is Null,
        SpecValue::Bool(x) => b matches SpecValue::Bool(y) && x == y,
        SpecValue::Byte(x) => b matches SpecValue::Byte(y) && x == y,
        SpecValue::Short(x) => b matches SpecValue::Short(y) && x == y,
        SpecValue::Int(x) => b matches SpecValue::Int(y) && x == y,
        SpecValue::Long(x) => b matches SpecValue::Long(y) && x == y,
        SpecValue::Float(x) => b matches SpecValue::Float(y) && float32_eq(x, y),
        SpecValue::Double(x) => b matches SpecValue::Double(y) && float64_eq(x, y),
        SpecValue::String(x) => b matches SpecValue::String(y) && x == y,
        SpecValue::Array(xs) => b matches SpecValue::Array(ys) && items_eq(xs, ys),
        SpecValue::ObjectArray(xs) => b matches SpecValue::ObjectArray(ys) && items_eq(xs, ys),
        SpecValue::Dictionary(es) => b matches SpecValue::Dictionary(fs) && entries_eq(es, fs),
        SpecValue::Custom { id, data } => b matches SpecValue::Custom { id: id2, data: data2 } && id == id2
            && data == data2,
        SpecValue::OperationRequest { op_code, params } => b matches SpecValue::OperationRequest {
            op_code: op2,
            params: params2,
        } && op_code == op2 && params_eq(params, params2),
        SpecValue::OperationResponse { op_code, return_code, debug_message, params } => b matches SpecValue::OperationResponse {
            op_code: op2,
            return_code: rc2,
            debug_message: msg2,
            params: params2,
        } && op_code == op2 && return_code == rc2 && debug_message == msg2 && params_eq(params, params2),
        SpecValue::EventData { code, params } => b matches SpecValue::EventData { code: code2, params: params2 }
            && code == code2 && params_eq(params, params2),
    }
}

/// Equal lengths and equal elements.
pub open spec fn items_eq(xs: Seq<SpecValue>, ys: Seq<SpecValue>) -> bool
    decreases xs, 0int,
{
    xs.len() == ys.len() && forall|i: int| 0 <= i < xs.len() ==> values_eq(xs[i], ys[i])
}

/// Two dictionaries equal as maps: as many entries, and each entry of `es`
/// matched by one of `fs` with a key taken for the same and an equal value.
pub open spec fn entries_eq(es: Seq<(SpecValue, SpecValue)>, fs: Seq<(SpecValue, SpecValue)>) -> bool
    decreases es, 0int,
{
    es.len() == fs.len() && forall|i: int| 0 <= i < es.len() ==> entry_in(es[i], fs)
}

/// Whether some entry of `fs` has a key taken for `e`'s and a value equal
/// to `e`'s.
pub open spec fn entry_in(e: (SpecValue, SpecValue), fs: Seq<(SpecValue, SpecValue)>) -> bool
    decreases e, 0int,
{
    exists|j: int| 0 <= j < fs.len() && same_key(e.0, #[trigger] fs[j].0) && values_eq(e.1, fs[j].1)
}

/// Every set of bytes is finite.
pub proof fn lemma_byte_set_finite(s: Set<u8>)
    ensures
        s.finite(),
{
    let f = |i: int| i as u8;
    let all = vstd::set_lib::set_int_range(0, 256).map(f);
    vstd::set_lib::lemma_int_range(0, 256);
    vstd::set_lib::set_int_range(0, 256).lemma_map_finite(f);
    assert forall|x: u8| s.contains(x) implies all.contains(x) by {
        assert(vstd::set_lib::set_int_range(0, 256).contains(x as int));
        assert(f(x as int) == x);
    }
    vstd::set_lib::lemma_set_subset_finite(all, s);
}

/// Two parameter tables with the same keys and equal values.
pub open spec fn params_eq(m1: Map<u8, SpecValue>, m2: Map<u8, SpecValue>) -> bool
    decreases m1, 0int,
{
    proof {
        lemma_byte_set_finite(m1.dom());
    }
    m1.dom() == m2.dom() && forall|k: u8| m1.contains_key(k) ==> values_eq(m1[k], m2[k])
}

/// Equal lengths and elements taken for the same keys.
pub open spec fn items_same_key(xs: Seq<SpecValue>, ys: Seq<SpecValue>) -> bool
    decreases xs, 0int,
{
    xs.len() == ys.len() && forall|i: int| 0 <= i < xs.len() ==> same_key(xs[i], ys[i])
}

/// Whether a dictionary takes `a` and `b` for the same key: they are equal
/// values and hash alike.  Numbers hash by their bits, so numbers must have
/// the same bits and be no NaN, also inside arrays; a dictionary or an
/// operation hashes by its size and codes only, so for those equality decides.
pub open spec fn same_key(a: SpecValue, b: SpecValue) -> bool
    decreases a, 1int,
{
    match a {
        SpecValue::Float(x) => b matches SpecValue::Float(y) && x == y && !is_nan32(x),
        SpecValue::Double(x) => b matches SpecValue::Double(y) && x == y && !is_nan64(x),
        SpecValue::Array(xs) => b matches SpecValue::Array(ys) && items_same_key(xs, ys),
        SpecValue::ObjectArray(xs) => b matches SpecValue::ObjectArray(ys) && items_same_key(xs, ys),
        _ => values_eq(a, b),
    }
}

/// Among the first `n` entries, the index of the last one whose key the
/// key `k` is taken for (`same_key`), or -1 when there is none.
pub open spec fn key_index(entries: Seq<(SpecValue, SpecValue)>, k: SpecValue, n: int) -> int
    decreases n,
{
    if n <= 0 {
        -1
    } else if same_key(k, entries[n - 1].0) {
        n - 1
    } else {
        key_index(entries, k, n - 1)
    }
}

/// Adds an entry to a dictionary: an entry whose key `k` is taken for keeps
/// its key and gets the value `v`; when there is none, `(k, v)` goes at the
/// end.
pub open spec fn dict_insert(entries: Seq<(SpecValue, SpecValue)>, k: SpecValue, v: SpecValue) -> Seq<
    (SpecValue, SpecValue),
> {
    let i = key_index(entries, k, entries.len() as int);
    if i < 0 {
        entries.push((k, v))
    } else {
        entries.update(i, (entries[i].0, v))
    }
}

/// No key of a dictionary is taken for an earlier one.
pub open spec fn distinct_keys(entries: Seq<(SpecValue, SpecValue)>) -> bool {
    forall|i: int, j: int| 0 <= i < j < entries.len() ==> !same_key(entries[j].0, entries[i].0)
}

/// `n` dictionary entries inserted into `acc`; a type code of 0 means each
/// entry carries its own.
pub open spec fn dict_entries(
    d: Seq<u8>,
    p: int,
    kt0: u8,
    vt0: u8,
    n: nat,
    bound: int,
    acc: Seq<(SpecValue, SpecValue)>,
) -> (Seq<(SpecValue, SpecValue)>, int)
    decreases bound, 0int, n,
{
    if n == 0 {
        (acc, p)
    } else if !(0 <= p <= d.len() && d.len() - p < bound) {
        (acc, p)
    } else {
        let kt = if kt0 == 0 { byte_or_zero(d, p) } else { kt0 };
        let p1 = if kt0 == 0 { after(d, p, 1) } else { p };
        let vt = if vt0 == 0 { byte_or_zero(d, p1) } else { vt0 };
        let p2 = if vt0 == 0 { after(d, p1, 1) } else { p1 };
        let (k, p3) = value_at(d, p2, kt);
        if !(p2 <= p3 <= d.len()) {
            (acc, p3)
        } else {
            let (v, p4) = value_at(d, p3, vt);
            dict_entries(d, p4, kt0, vt0, (n - 1) as nat, bound, dict_insert(acc, k, v))
        }
    }
}

/// A parameter table: a count, then entries of key byte, type code byte and
/// value; reading stops early when a key or type code is cut off.  A later
/// entry replaces an earlier one with the same key.
pub open spec fn param_table(d: Seq<u8>, p: int, bound: int) -> (Map<u8, SpecValue>, int)
    decreases bound, 1int, 0int,
{
    let (n, q) = compressed_u32(d, p);
    param_entries(d, q, n as nat, bound, Map::empty())
}

/// `n` parameter entries inserted into `acc`.
pub open spec fn param_entries(d: Seq<u8>, p: int, n: nat, bound: int, acc: Map<u8, SpecValue>) -> (
    Map<u8, SpecValue>,
    int,
)
    decreases bound, 0int, n,
{
    if n == 0 {
        (acc, p)
    } else if !(0 <= p <= d.len() && d.len() - p < bound) {
        (acc, p)
    } else if p + 2 > d.len() {
        (acc, d.len() as int)
    } else {
        let (v, q) = value_at(d, p + 2, d[p + 1]);
        param_entries(d, q, (n - 1) as nat, bound, acc.insert(d[p], v))
    }
}

proof fn lemma_key_index(s: Seq<(SpecValue, SpecValue)>, k: SpecValue, n: int)
    requires
        0 <= n <= s.len(),
    ensures
        key_index(s, k, n) < 0 ==> forall|j: int| 0 <= j < n ==> !same_key(k, #[trigger] s[j].0),
        key_index(s, k, n) >= 0 ==> 0 <= key_index(s, k, n) < n && same_key(k, s[key_index(s, k, n)].0),
    decreases n,
{
    if n > 0 && !same_key(k, s[n - 1].0) {
        lemma_key_index(s, k, n - 1);
    }
}

proof fn lemma_insert_keeps_keys_distinct(s: Seq<(SpecValue, SpecValue)>, k: SpecValue, v: SpecValue)
    requires
        distinct_keys(s),
    ensures
        distinct_keys(dict_insert(s, k, v)),
{
    lemma_key_index(s, k, s.len() as int);
}

proof fn lemma_entries_keep_keys_distinct(
    d: Seq<u8>,
    p: int,
    kt0: u8,
    vt0: u8,
    n: nat,
    bound: int,
    acc: Seq<(SpecValue, SpecValue)>,
)
    requires
        distinct_keys(acc),
    ensures
        distinct_keys(dict_entries(d, p, kt0, vt0, n, bound, acc).0),
    decreases n,
{
    if n > 0 && 0 <= p <= d.len() && d.len() - p < bound {
        let kt = if kt0 == 0 { byte_or_zero(d, p) } else { kt0 };
        let p1 = if kt0 == 0 { after(d, p, 1) } else { p };
        let vt = if vt0 == 0 { byte_or_zero(d, p1) } else { vt0 };
        let p2 = if vt0 == 0 { after(d, p1, 1) } else { p1 };
        let (k, p3) = value_at(d, p2, kt);
        if p2 <= p3 <= d.len() {
            let (v, p4) = value_at(d, p3, vt);
            lemma_insert_keeps_keys_distinct(acc, k, v);
            lemma_entries_keep_keys_distinct(d, p4, kt0, vt0, (n - 1) as nat, bound, dict_insert(acc, k, v));
        }
    }
}

/// Every dictionary read holds at most one entry per key: an entry whose key
/// is taken for an earlier one replaces that entry's value.
pub proof fn lemma_dictionary_keys_distinct(d: Seq<u8>, p: int)
    requires
        0 <= p <= d.len(),
    ensures
        value_at(d, p, TYPE_DICTIONARY).0 is Dictionary,
        value_at(d, p, TYPE_HASHTABLE).0 == value_at(d, p, TYPE_DICTIONARY).0,
        distinct_keys(value_at(d, p, TYPE_DICTIONARY).0->Dictionary_0),
{
    let p1 = after(d, p, 1);
    let p2 = after(d, p1, 1);
    let (n, p3) = compressed_u32(d, p2);
    lemma_entries_keep_keys_distinct(d, p3, byte_or_zero(d, p), byte_or_zero(d, p1), n as nat, d.len() - p, Seq::empty());
    assert(!is_scalar_code(TYPE_DICTIONARY) && !is_scalar_code(TYPE_HASHTABLE));
    assert(value_at(d, p, TYPE_DICTIONARY) == dictionary_at(d, p));
    assert(value_at(d, p, TYPE_HASHTABLE) == dictionary_at(d, p));
}

/// A parameter table that fills the rest of `d` from `p`.
pub open spec fn param_table_from(d: Seq<u8>, p: int) -> (Map<u8, SpecValue>, int) {
    param_table(d, p, d.len() - p + 1)
}

/// The 16-bit pattern of a short.
pub open spec fn short_bits(x: i16) -> int {
    if x >= 0 {
        x as int
    } else {
        x + 0x1_0000
    }
}

/// Shorts written one after another, each as two little-endian bytes.
pub open spec fn le_shorts(s: Seq<i16>) -> Seq<u8> {
    Seq::new(
        2 * s.len(),
        |j: int|
            if j % 2 == 0 {
                (short_bits(s[j / 2]) % 256) as u8
            } else {
                (short_bits(s[j / 2]) / 256) as u8
            },
    )
}

/// Shorts as `Short` values.
pub open spec fn short_values(s: Seq<i16>) -> Seq<SpecValue> {
    Seq::new(s.len(), |i: int| SpecValue::Short(s[i]))
}

proof fn lemma_short_items(d: Seq<u8>, l: int, s: Seq<i16>, k: nat, acc: Seq<SpecValue>)
    requires
        l >= 1,
        k <= s.len(),
        d.len() >= l + 2 * s.len(),
        forall|j: int| 0 <= j < 2 * s.len() ==> d[l + j] == #[trigger] le_shorts(s)[j],
        acc == short_values(s).take(s.len() - k),
    ensures
        items_at(d, l + 2 * (s.len() - k), TYPE_SHORT, k, d.len() as int, acc) == (short_values(s), l + 2
            * s.len()),
    decreases k,
{
    let n = s.len() as int;
    if k == 0 {
        assert(acc =~= short_values(s));
    } else {
        let i = n - k;
        let p = l + 2 * i;
        let u = short_bits(s[i]);
        assert(d[p] == le_shorts(s)[2 * i]);
        assert(d[p + 1] == le_shorts(s)[2 * i + 1]);
        assert((2 * i) / 2 == i && (2 * i + 1) / 2 == i && (2 * i) % 2 == 0 && (2 * i + 1) % 2 == 1);
        assert(le16(d, p) == u);
        assert(signed16(u) == s[i]);
        assert(is_scalar_code(TYPE_SHORT));
        assert(value_at(d, p, TYPE_SHORT) == (SpecValue::Short(s[i]), p + 2));
        assert(acc.push(SpecValue::Short(s[i])) =~= short_values(s).take(n - (k - 1)));
        lemma_short_items(d, l, s, (k - 1) as nat, acc.push(SpecValue::Short(s[i])));
        assert(l + 2 * (n - (k - 1)) == p + 2);
    }
}

/// A typed array of shorts (type code `0x44`) reads back as the shorts
/// written: a count, then each short as two little-endian bytes, whatever
/// follows; the read ends after the last short.
pub proof fn lemma_typed_short_array_round_trip(s: Seq<i16>, tail: Seq<u8>)
    requires
        s.len() <= u32::MAX,
    ensures
        value_at(leb128(s.len()) + le_shorts(s) + tail, 0, 0x44) == (
            SpecValue::Array(short_values(s)),
            (leb128(s.len()).len() + 2 * s.len()) as int,
        ),
{
    let n = s.len();
    let enc = leb128(n);
    let d = enc + le_shorts(s) + tail;
    let l = enc.len() as int;
    assert(d.subrange(0, l) =~= leb128((n as u32) as nat));
    lemma_compressed_u32_round_trip(d, 0, n as u32);
    assert(compressed_u32(d, 0) == (n as u32, l));
    assert forall|j: int| 0 <= j < 2 * s.len() implies d[l + j] == #[trigger] le_shorts(s)[j] by {}
    assert(short_values(s).take(0) =~= Seq::<SpecValue>::empty());
    lemma_short_items(d, l, s, n, Seq::empty());
    assert(l >= 1) by {
        lemma_leb128_nonempty(n);
    }
    assert(!is_scalar_code(0x44));
    assert(value_at(d, 0, 0x44) == typed_array_at(d, 0, TYPE_SHORT));
}

proof fn lemma_leb128_nonempty(v: nat)
    ensures
        leb128(v).len() >= 1,
    decreases v,
{
    if v >= 128 {
        lemma_leb128_nonempty(v / 128);
    }
}

/// A typed array of bytes (type code `0x43`) reads back as the bytes
/// written after its count; the read ends after the last byte.
pub proof fn lemma_typed_byte_array_round_trip(b: Seq<u8>, tail: Seq<u8>)
    requires
        b.len() <= u32::MAX,
    ensures
        value_at(leb128(b.len()) + b + tail, 0, 0x43) == (
            SpecValue::Array(Seq::new(b.len(), |i: int| SpecValue::Byte(b[i]))),
            (leb128(b.len()).len() + b.len()) as int,
        ),
{
    let n = b.len();
    let d = leb128(n) + b + tail;
    let l = leb128(n).len() as int;
    assert(d.subrange(0, l) =~= leb128((n as u32) as nat));
    lemma_compressed_u32_round_trip(d, 0, n as u32);
    assert(d.subrange(l, l + n) =~= b);
    assert(byte_values(b) =~= Seq::new(b.len(), |i: int| SpecValue::Byte(b[i])));
    assert(!is_scalar_code(0x43));
    assert(value_at(d, 0, 0x43) == typed_array_at(d, 0, TYPE_BYTE));
}

/// A typed array of booleans (type code `0x42`) packs them eight to a byte,
/// the first in the lowest bit: it reads back as the booleans written, and
/// the read ends after the packed bytes.
pub proof fn lemma_typed_bool_array_round_trip(bits: Seq<bool>, packed: Seq<u8>, tail: Seq<u8>)
    requires
        bits.len() <= u32::MAX,
        packed.len() == (bits.len() + 7) / 8,
        forall|i: int| 0 <= i < bits.len() ==> (((packed[i / 8] >> ((i % 8) as u8)) & 1u8) == 1u8) == #[trigger] bits[i],
    ensures
        value_at(leb128(bits.len()) + packed + tail, 0, 0x42) == (
            SpecValue::Array(Seq::new(bits.len(), |i: int| SpecValue::Bool(bits[i]))),
            (leb128(bits.len()).len() + packed.len()) as int,
        ),
{
    let n = bits.len();
    let d = leb128(n) + packed + tail;
    let l = leb128(n).len() as int;
    assert(d.subrange(0, l) =~= leb128((n as u32) as nat));
    lemma_compressed_u32_round_trip(d, 0, n as u32);
    assert(d.subrange(l, l + packed.len()) =~= packed);
    assert(unpack_bools(packed, n) =~= Seq::new(bits.len(), |i: int| SpecValue::Bool(bits[i])));
    assert(!is_scalar_code(0x42));
    assert(value_at(d, 0, 0x42) == typed_array_at(d, 0, TYPE_BOOLEAN));
}

/// Scalars read back as written: a byte, a boolean (any non-zero byte is
/// true), a little-endian short, the bits of a little-endian float, and
/// compressed integers of either width.
pub proof fn lemma_scalar_round_trips(b: u8, x: i16, bits: u32, i: i32, l: i64, tail: Seq<u8>)
    ensures
        value_at(seq![b] + tail, 0, TYPE_BYTE) == (SpecValue::Byte(b), 1int),
        value_at(seq![b] + tail, 0, TYPE_BOOLEAN) == (SpecValue::Bool(b != 0), 1int),
        value_at(
            seq![(short_bits(x) % 256) as u8, (short_bits(x) / 256) as u8] + tail,
            0,
            TYPE_SHORT,
        ) == (SpecValue::Short(x), 2int),
        value_at(
            seq![
                (bits % 256) as u8,
                (bits / 256 % 256) as u8,
                (bits / 65536 % 256) as u8,
                (bits / 16777216) as u8,
            ] + tail,
            0,
            TYPE_FLOAT,
        ) == (SpecValue::Float(bits), 4int),
        value_at(leb128(zigzag_encode(i as int)) + tail, 0, TYPE_COMPRESSED_INT) == (
            SpecValue::Int(i),
            leb128(zigzag_encode(i as int)).len() as int,
        ),
        value_at(leb128(zigzag_encode(l as int)) + tail, 0, TYPE_COMPRESSED_LONG) == (
            SpecValue::Long(l),
            leb128(zigzag_encode(l as int)).len() as int,
        ),
{
    let u = short_bits(x);
    let ds = seq![(u % 256) as u8, (u / 256) as u8] + tail;
    assert(le16(ds, 0) == u);
    let df = seq![
        (bits % 256) as u8,
        (bits / 256 % 256) as u8,
        (bits / 65536 % 256) as u8,
        (bits / 16777216) as u8,
    ] + tail;
    assert(le32(df, 0) == bits);
    let zi = leb128(zigzag_encode(i as int));
    let di = zi + tail;
    assert(zigzag_encode(i as int) <= u32::MAX);
    assert(di.subrange(0, zi.len() as int) =~= zi);
    lemma_compressed_i32_round_trip(di, 0, i);
    let zl = leb128(zigzag_encode(l as int));
    let dl = zl + tail;
    assert(zigzag_encode(l as int) <= u64::MAX);
    assert(dl.subrange(0, zl.len() as int) =~= zl);
    lemma_compressed_i64_round_trip(dl, 0, l);
}

/// The short integer forms read back as written: one byte for `Int1` and
/// `Long1` (negated for the `Neg` forms), two little-endian bytes for
/// `Int2` and `Long2`; the constant forms read their value from the type
/// code alone and consume nothing; `Null` and code 0 read `Null`.
pub proof fn lemma_short_forms_round_trip(b: u8, lo: u8, hi: u8, tail: Seq<u8>)
    ensures
        value_at(seq![b] + tail, 0, TYPE_INT1) == (SpecValue::Int(b as i32), 1int),
        value_at(seq![b] + tail, 0, TYPE_INT1_NEG) == (SpecValue::Int(-(b as int) as i32), 1int),
        value_at(seq![b] + tail, 0, TYPE_LONG1) == (SpecValue::Long(b as i64), 1int),
        value_at(seq![b] + tail, 0, TYPE_LONG1_NEG) == (SpecValue::Long(-(b as int) as i64), 1int),
        value_at(seq![lo, hi] + tail, 0, TYPE_INT2) == (SpecValue::Int((lo + 256 * hi) as i32), 2int),
        value_at(seq![lo, hi] + tail, 0, TYPE_INT2_NEG) == (SpecValue::Int(-(lo + 256 * hi) as i32), 2int),
        value_at(seq![lo, hi] + tail, 0, TYPE_LONG2) == (SpecValue::Long((lo + 256 * hi) as i64), 2int),
        value_at(seq![lo, hi] + tail, 0, TYPE_LONG2_NEG) == (SpecValue::Long(-(lo + 256 * hi) as i64), 2int),
        value_at(tail, 0, TYPE_BOOL_FALSE) == (SpecValue::Bool(false), 0int),
        value_at(tail, 0, TYPE_BOOL_TRUE) == (SpecValue::Bool(true), 0int),
        value_at(tail, 0, TYPE_SHORT_ZERO) == (SpecValue::Short(0), 0int),
        value_at(tail, 0, TYPE_INT_ZERO) == (SpecValue::Int(0), 0int),
        value_at(tail, 0, TYPE_LONG_ZERO) == (SpecValue::Long(0), 0int),
        value_at(tail, 0, TYPE_FLOAT_ZERO) == (SpecValue::Float(0), 0int),
        value_at(tail, 0, TYPE_DOUBLE_ZERO) == (SpecValue::Double(0), 0int),
        value_at(tail, 0, TYPE_BYTE_ZERO) == (SpecValue::Byte(0), 0int),
        value_at(tail, 0, TYPE_NULL) == (SpecValue::Null, 0int),
        value_at(tail, 0, TYPE_UNKNOWN) == (SpecValue::Null, 0int),
{
    let d2 = seq![lo, hi] + tail;
    assert(le16(d2, 0) == lo + 256 * hi);
}

/// A string reads back as the text of its bytes (when it has any), a slim
/// custom value (type code `0x80` plus its id) as its id and bytes, and a
/// custom value of type code 19 as the id that follows and its bytes; each
/// read ends after the bytes.
pub proof fn lemma_string_and_custom_round_trip(bytes: Seq<u8>, id: u8, tail: Seq<u8>)
    requires
        bytes.len() <= u32::MAX,
        id < 0x80,
    ensures
        bytes.len() > 0 ==> value_at(leb128(bytes.len()) + bytes + tail, 0, TYPE_STRING) == (
            SpecValue::String(utf8_lossy(bytes)),
            (leb128(bytes.len()).len() + bytes.len()) as int,
        ),
        value_at(leb128(bytes.len()) + bytes + tail, 0, (0x80 + id) as u8) == (
            SpecValue::Custom { id, data: bytes },
            (leb128(bytes.len()).len() + bytes.len()) as int,
        ),
        value_at(seq![id] + leb128(bytes.len()) + bytes + tail, 0, TYPE_CUSTOM) == (
            SpecValue::Custom { id, data: bytes },
            (1 + leb128(bytes.len()).len() + bytes.len()) as int,
        ),
{
    let n = bytes.len();
    let enc = leb128(n);
    let l = enc.len() as int;
    let d = enc + bytes + tail;
    assert(d.subrange(0, l) =~= leb128((n as u32) as nat));
    lemma_compressed_u32_round_trip(d, 0, n as u32);
    assert(d.subrange(l, l + n) =~= bytes);
    let d2 = seq![id] + enc + bytes + tail;
    assert(d2.subrange(1, 1 + l) =~= leb128((n as u32) as nat));
    lemma_compressed_u32_round_trip(d2, 1, n as u32);
    assert(d2.subrange(1 + l, 1 + l + n) =~= bytes);
    assert(((0x80 + id) as u8 - 0x80) as u8 == id);
}

/// An array of type code `0x40` gives its element type once, after its
/// count: an array of shorts reads back as the shorts written.
pub proof fn lemma_nested_short_array_round_trip(s: Seq<i16>, tail: Seq<u8>)
    requires
        s.len() <= u32::MAX,
    ensures
        value_at(leb128(s.len()) + seq![TYPE_SHORT] + le_shorts(s) + tail, 0, TYPE_ARRAY) == (
            SpecValue::Array(short_values(s)),
            (leb128(s.len()).len() + 1 + 2 * s.len()) as int,
        ),
{
    let n = s.len();
    let enc = leb128(n);
    let d = enc + seq![TYPE_SHORT] + le_shorts(s) + tail;
    let l = enc.len() as int;
    assert(d.subrange(0, l) =~= leb128((n as u32) as nat));
    lemma_compressed_u32_round_trip(d, 0, n as u32);
    assert(d[l] == TYPE_SHORT);
    assert forall|j: int| 0 <= j < 2 * s.len() implies d[l + 1 + j] == #[trigger] le_shorts(s)[j] by {}
    assert(short_values(s).take(0) =~= Seq::<SpecValue>::empty());
    lemma_short_items(d, l + 1, s, n, Seq::empty());
    lemma_leb128_nonempty(n);
}

/// Keys and values laid out in turn.
pub open spec fn byte_pairs(ks: Seq<u8>, vs: Seq<u8>) -> Seq<u8> {
    Seq::new(2 * ks.len(), |j: int| if j % 2 == 0 { ks[j / 2] } else { vs[j / 2] })
}

/// Byte keys with byte values as dictionary entries.
pub open spec fn byte_entries(ks: Seq<u8>, vs: Seq<u8>) -> Seq<(SpecValue, SpecValue)> {
    Seq::new(ks.len(), |i: int| (SpecValue::Byte(ks[i]), SpecValue::Byte(vs[i])))
}

proof fn lemma_byte_entries(d: Seq<u8>, l: int, ks: Seq<u8>, vs: Seq<u8>, k: nat, acc: Seq<(SpecValue, SpecValue)>)
    requires
        l >= 1,
        ks.len() == vs.len(),
        k <= ks.len(),
        d.len() >= l + 2 * ks.len(),
        forall|j: int| 0 <= j < 2 * ks.len() ==> d[l + j] == #[trigger] byte_pairs(ks, vs)[j],
        forall|a: int, b: int| 0 <= a < b < ks.len() ==> ks[a] != ks[b],
        acc == byte_entries(ks, vs).take(ks.len() - k),
    ensures
        dict_entries(d, l + 2 * (ks.len() - k), TYPE_BYTE, TYPE_BYTE, k, d.len() as int, acc) == (
            byte_entries(ks, vs),
            l + 2 * ks.len(),
        ),
    decreases k,
{
    let n = ks.len() as int;
    if k == 0 {
        assert(acc =~= byte_entries(ks, vs));
    } else {
        let i = n - k;
        let p = l + 2 * i;
        assert(d[p] == byte_pairs(ks, vs)[2 * i]);
        assert(d[p + 1] == byte_pairs(ks, vs)[2 * i + 1]);
        assert((2 * i) / 2 == i && (2 * i + 1) / 2 == i && (2 * i) % 2 == 0 && (2 * i + 1) % 2 == 1);
        assert(is_scalar_code(TYPE_BYTE));
        assert(value_at(d, p, TYPE_BYTE) == (SpecValue::Byte(ks[i]), p + 1));
        assert(value_at(d, p + 1, TYPE_BYTE) == (SpecValue::Byte(vs[i]), p + 2));
        let key = SpecValue::Byte(ks[i]);
        lemma_key_index(acc, key, acc.len() as int);
        if key_index(acc, key, acc.len() as int) >= 0 {
            let x = key_index(acc, key, acc.len() as int);
            assert(acc[x] == byte_entries(ks, vs)[x]);
        }
        let next = dict_insert(acc, key, SpecValue::Byte(vs[i]));
        assert(next =~= byte_entries(ks, vs).take(n - (k - 1)));
        lemma_byte_entries(d, l, ks, vs, (k - 1) as nat, next);
        assert(l + 2 * (n - (k - 1)) == p + 2);
    }
}

/// A dictionary with byte keys and byte values (type codes given once,
/// before the count) reads back as its entries in order, the keys being
/// distinct; the read ends after the last value.
pub proof fn lemma_byte_dictionary_round_trip(ks: Seq<u8>, vs: Seq<u8>, tail: Seq<u8>)
    requires
        ks.len() == vs.len(),
        ks.len() <= u32::MAX,
        forall|a: int, b: int| 0 <= a < b < ks.len() ==> ks[a] != ks[b],
    ensures
        value_at(seq![TYPE_BYTE, TYPE_BYTE] + leb128(ks.len()) + byte_pairs(ks, vs) + tail, 0, TYPE_DICTIONARY)
            == (SpecValue::Dictionary(byte_entries(ks, vs)), (2 + leb128(ks.len()).len() + 2 * ks.len()) as int),
{
    let n = ks.len();
    let enc = leb128(n);
    let l = enc.len() as int;
    let d = seq![TYPE_BYTE, TYPE_BYTE] + enc + byte_pairs(ks, vs) + tail;
    assert(d.subrange(2, 2 + l) =~= leb128((n as u32) as nat));
    lemma_compressed_u32_round_trip(d, 2, n as u32);
    assert forall|j: int| 0 <= j < 2 * ks.len() implies d[2 + l + j] == #[trigger] byte_pairs(ks, vs)[j] by {}
    assert(byte_entries(ks, vs).take(0) =~= Seq::<(SpecValue, SpecValue)>::empty());
    lemma_byte_entries(d, 2 + l, ks, vs, n, Seq::empty());
    assert(!is_scalar_code(TYPE_DICTIONARY));
    assert(value_at(d, 0, TYPE_DICTIONARY) == dictionary_at(d, 0));
}

/// Parameter entries of byte values laid out as key, type code 3, value.
pub open spec fn byte_param_entries(ks: Seq<u8>, vs: Seq<u8>) -> Seq<u8> {
    Seq::new(
        3 * ks.len(),
        |j: int|
            if j % 3 == 0 {
                ks[j / 3]
            } else if j % 3 == 1 {
                TYPE_BYTE
            } else {
                vs[j / 3]
            },
    )
}

proof fn lemma_byte_params(
    d: Seq<u8>,
    l: int,
    ks: Seq<u8>,
    vs: Seq<u8>,
    k: nat,
    bound: int,
    acc: Map<u8, SpecValue>,
)
    requires
        l >= 0,
        ks.len() == vs.len(),
        k <= ks.len(),
        d.len() >= l + 3 * ks.len(),
        d.len() - l < bound,
        forall|j: int| 0 <= j < 3 * ks.len() ==> d[l + j] == #[trigger] byte_param_entries(ks, vs)[j],
        forall|a: int, b: int| 0 <= a < b < ks.len() ==> ks[a] != ks[b],
        forall|i: int| 0 <= i < ks.len() - k ==> acc.contains_key(#[trigger] ks[i]) && acc[ks[i]] == SpecValue::Byte(vs[i]),
        forall|x: u8| acc.contains_key(x) ==> exists|i: int| 0 <= i < ks.len() - k && ks[i] == x,
    ensures
        ({
            let (m, q) = param_entries(d, l + 3 * (ks.len() - k), k, bound, acc);
            &&& q == l + 3 * ks.len()
            &&& forall|i: int| 0 <= i < ks.len() ==> m.contains_key(#[trigger] ks[i]) && m[ks[i]] == SpecValue::Byte(vs[i])
            &&& forall|x: u8| m.contains_key(x) ==> exists|i: int| 0 <= i < ks.len() && ks[i] == x
        }),
    decreases k,
{
    let n = ks.len() as int;
    if k > 0 {
        let i = n - k;
        let p = l + 3 * i;
        assert(d[p] == byte_param_entries(ks, vs)[3 * i]);
        assert(d[p + 1] == byte_param_entries(ks, vs)[3 * i + 1]);
        assert(d[p + 2] == byte_param_entries(ks, vs)[3 * i + 2]);
        assert((3 * i) / 3 == i && (3 * i + 1) / 3 == i && (3 * i + 2) / 3 == i);
        assert((3 * i) % 3 == 0 && (3 * i + 1) % 3 == 1 && (3 * i + 2) % 3 == 2);
        assert(is_scalar_code(TYPE_BYTE));
        assert(value_at(d, p + 2, TYPE_BYTE) == (SpecValue::Byte(vs[i]), p + 3));
        let next = acc.insert(ks[i], SpecValue::Byte(vs[i]));
        assert forall|x: u8| next.contains_key(x) implies exists|j: int| 0 <= j < n - (k - 1) && ks[j] == x by {
            if x == ks[i] {
                assert(ks[i] == x);
            } else {
                let j = choose|j: int| 0 <= j < n - k && ks[j] == x;
                assert(ks[j] == x);
            }
        }
        assert forall|j: int| 0 <= j < n - (k - 1) implies next.contains_key(#[trigger] ks[j]) && next[ks[j]]
            == SpecValue::Byte(vs[j]) by {
            if j < i {
                assert(ks[j] != ks[i]);
            }
        }
        lemma_byte_params(d, l, ks, vs, (k - 1) as nat, bound, next);
        assert(l + 3 * (n - (k - 1)) == p + 3);
    }
}

/// A parameter table of byte values with distinct keys reads back as those
/// keys, each with its value, and no other key; the read ends after the
/// last value.
pub proof fn lemma_byte_parameter_table_round_trip(ks: Seq<u8>, vs: Seq<u8>, tail: Seq<u8>)
    requires
        ks.len() == vs.len(),
        ks.len() <= u32::MAX,
        forall|a: int, b: int| 0 <= a < b < ks.len() ==> ks[a] != ks[b],
    ensures
        ({
            let (m, q) = param_table_from(leb128(ks.len()) + byte_param_entries(ks, vs) + tail, 0);
            &&& q == leb128(ks.len()).len() + 3 * ks.len()
            &&& forall|i: int| 0 <= i < ks.len() ==> m.contains_key(#[trigger] ks[i]) && m[ks[i]] == SpecValue::Byte(vs[i])
            &&& forall|x: u8| m.contains_key(x) ==> exists|i: int| 0 <= i < ks.len() && ks[i] == x
        }),
{
    let n = ks.len();
    let enc = leb128(n);
    let l = enc.len() as int;
    let d = enc + byte_param_entries(ks, vs) + tail;
    assert(d.subrange(0, l) =~= leb128((n as u32) as nat));
    lemma_compressed_u32_round_trip(d, 0, n as u32);
    assert forall|j: int| 0 <= j < 3 * ks.len() implies d[l + j] == #[trigger] byte_param_entries(ks, vs)[j] by {}
    lemma_leb128_nonempty(n);
    lemma_byte_params(d, l, ks, vs, n, (d.len() + 1) as int, Map::empty());
}

} // verus!
