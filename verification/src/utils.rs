//! Character id formatting and operation/event code normalization.
use vstd::prelude::*;

verus! {

/// The lowercase hexadecimal digit for `n` (below 16).
pub open spec fn hex_digit(n: int) -> char {
    if n == 0 {
        '0'
    } else if n == 1 {
        '1'
    } else if n == 2 {
        '2'
    } else if n == 3 {
        '3'
    } else if n == 4 {
        '4'
    } else if n == 5 {
        '5'
    } else if n == 6 {
        '6'
    } else if n == 7 {
        '7'
    } else if n == 8 {
        '8'
    } else if n == 9 {
        '9'
    } else if n == 10 {
        'a'
    } else if n == 11 {
        'b'
    } else if n == 12 {
        'c'
    } else if n == 13 {
        'd'
    } else if n == 14 {
        'e'
    } else {
        'f'
    }
}

/// A byte as two hexadecimal digits.
pub open spec fn hex_pair(b: u8) -> Seq<char> {
    seq![hex_digit((b / 16) as int), hex_digit((b % 16) as int)]
}

/// A byte in hexadecimal without leading zeros.
pub open spec fn hex_min(b: u8) -> Seq<char> {
    if b < 16 {
        seq![hex_digit(b as int)]
    } else {
        hex_pair(b)
    }
}

/// Bytes as two hexadecimal digits each, run together.
pub open spec fn hex_run(bytes: Seq<u8>) -> Seq<char>
    decreases bytes.len(),
{
    if bytes.len() == 0 {
        Seq::empty()
    } else {
        hex_run(bytes.drop_last()) + hex_pair(bytes.last())
    }
}

/// Bytes in hexadecimal separated by ", " (the items of a debug list).
pub open spec fn hex_items(bytes: Seq<u8>) -> Seq<char>
    decreases bytes.len(),
{
    if bytes.len() == 0 {
        Seq::empty()
    } else if bytes.len() == 1 {
        hex_min(bytes[0])
    } else {
        hex_items(bytes.drop_last()) + seq![',', ' '] + hex_min(bytes.last())
    }
}

/// A byte slice as a debug list in hexadecimal, such as `[a, ff]`.
pub open spec fn hex_debug_list(bytes: Seq<u8>) -> Seq<char> {
    seq!['['] + hex_items(bytes) + seq![']']
}

/// The text of a character id: for 16 bytes, a UUID whose first three
/// groups are stored little-endian (bytes 3,2,1,0 - 5,4 - 7,6 - 8,9 -
/// 10..16); for any other length, the bytes as a hexadecimal debug list.
pub open spec fn character_id_text(b: Seq<u8>) -> Seq<char> {
    if b.len() != 16 {
        hex_debug_list(b)
    } else {
        hex_run(seq![b[3], b[2], b[1], b[0]]) + seq!['-'] + hex_run(seq![b[5], b[4]]) + seq!['-']
            + hex_run(seq![b[7], b[6]]) + seq!['-'] + hex_run(b.subrange(8, 10)) + seq!['-']
            + hex_run(b.subrange(10, 16))
    }
}

fn push_hex_digit(s: &mut String, n: u8)
    requires
        n < 16,
    ensures
        final(s)@ == old(s)@.push(hex_digit(n as int)),
{
    let lit: &str = if n == 0 {
        "0"
    } else if n == 1 {
        "1"
    } else if n == 2 {
        "2"
    } else if n == 3 {
        "3"
    } else if n == 4 {
        "4"
    } else if n == 5 {
        "5"
    } else if n == 6 {
        "6"
    } else if n == 7 {
        "7"
    } else if n == 8 {
        "8"
    } else if n == 9 {
        "9"
    } else if n == 10 {
        "a"
    } else if n == 11 {
        "b"
    } else if n == 12 {
        "c"
    } else if n == 13 {
        "d"
    } else if n == 14 {
        "e"
    } else {
        "f"
    };
    proof {
        reveal_strlit("0");
        reveal_strlit("1");
        reveal_strlit("2");
        reveal_strlit("3");
        reveal_strlit("4");
        reveal_strlit("5");
        reveal_strlit("6");
        reveal_strlit("7");
        reveal_strlit("8");
        reveal_strlit("9");
        reveal_strlit("a");
        reveal_strlit("b");
        reveal_strlit("c");
        reveal_strlit("d");
        reveal_strlit("e");
        reveal_strlit("f");
    }
    s.append(lit);
}

fn push_literal(s: &mut String, lit: &str)
    ensures
        final(s)@ == old(s)@ + lit@,
{
    s.append(lit);
}

/// Appends `bytes` as two hexadecimal digits each.
fn push_hex_run(s: &mut String, bytes: &[u8])
    ensures
        final(s)@ == old(s)@ + hex_run(bytes@),
{
    let ghost s0 = s@;
    let mut i: usize = 0;
    assert(bytes@.subrange(0, 0) =~= Seq::<u8>::empty());
    while i < bytes.len()
        invariant
            i <= bytes@.len(),
            s@ == s0 + hex_run(bytes@.subrange(0, i as int)),
        decreases bytes@.len() - i,
    {
        let b = bytes[i];
        push_hex_digit(s, b / 16);
        push_hex_digit(s, b % 16);
        assert(bytes@.subrange(0, i + 1).drop_last() =~= bytes@.subrange(0, i as int));
        assert(s@ =~= s0 + hex_run(bytes@.subrange(0, i + 1)));
        i = i + 1;
    }
    assert(bytes@.subrange(0, bytes@.len() as int) =~= bytes@);
}

/// Decodes a mixed-endian UUID from bytes (Albion's character id format):
/// the first four bytes, the next two and the next two are little-endian,
/// the last eight big-endian.  Other lengths are shown as a hexadecimal list.
pub fn decode_character_id(bytes: &[u8]) -> (r: String)
    ensures
        r@ == character_id_text(bytes@),
{
    let mut s = String::new();
    if bytes.len() != 16 {
        push_literal(&mut s, "[");
        let mut i: usize = 0;
        assert(bytes@.subrange(0, 0) =~= Seq::<u8>::empty());
        proof { reveal_strlit("["); }
        while i < bytes.len()
            invariant
                i <= bytes@.len(),
                s@ == seq!['['] + hex_items(bytes@.subrange(0, i as int)),
            decreases bytes@.len() - i,
        {
            let b = bytes[i];
            let ghost before = s@;
            if i > 0 {
                push_literal(&mut s, ", ");
                proof { reveal_strlit(", "); }
            }
            if b >= 16 {
                push_hex_digit(&mut s, b / 16);
            }
            push_hex_digit(&mut s, b % 16);
            assert(bytes@.subrange(0, i + 1).drop_last() =~= bytes@.subrange(0, i as int));
            assert(s@ =~= seq!['['] + hex_items(bytes@.subrange(0, i + 1)));
            i = i + 1;
        }
        assert(bytes@.subrange(0, bytes@.len() as int) =~= bytes@);
        push_literal(&mut s, "]");
        proof { reveal_strlit("]"); }
        return s;
    }
    let first = [bytes[3], bytes[2], bytes[1], bytes[0]];
    let second = [bytes[5], bytes[4]];
    let third = [bytes[7], bytes[6]];
    proof { reveal_strlit("-"); }
    push_hex_run(&mut s, first.as_slice());
    push_literal(&mut s, "-");
    push_hex_run(&mut s, second.as_slice());
    push_literal(&mut s, "-");
    push_hex_run(&mut s, third.as_slice());
    push_literal(&mut s, "-");
    push_hex_run(&mut s, &bytes[8..10]);
    push_literal(&mut s, "-");
    push_hex_run(&mut s, &bytes[10..16]);
    assert(first@ =~= seq![bytes@[3], bytes@[2], bytes@[1], bytes@[0]]);
    assert(second@ =~= seq![bytes@[5], bytes@[4]]);
    assert(third@ =~= seq![bytes@[7], bytes@[6]]);
    assert(s@ =~= character_id_text(bytes@));
    s
}

/// The highest operation code the client knows.
pub const MAX_OPCODE: u16 = 539;

/// The highest event code the client knows.
pub const MAX_EVCODE: u16 = 680;

/// `code` with its two bytes exchanged (a rotation by eight bits).
pub open spec fn swap_bytes(code: u16) -> int {
    (code % 256) * 256 + code / 256
}

/// Brings a code above `max` back into range when it was read with its bytes
/// exchanged, or as a byte shifted into the high half; otherwise leaves it.
pub open spec fn normalized(code: u16, max: u16) -> u16 {
    if code <= max {
        code
    } else if swap_bytes(code) <= max {
        swap_bytes(code) as u16
    } else if code > 0xFF && code % 256 == 0 && code / 256 <= max {
        (code / 256) as u16
    } else {
        code
    }
}

fn normalize_code(code: u16, max: u16) -> (r: u16)
    ensures
        r == normalized(code, max),
{
    if code <= max {
        return code;
    }
    let swapped = (code % 256) * 256 + code / 256;
    if swapped <= max {
        return swapped;
    }
    if code > 0x00FF && code % 256 == 0 {
        let shifted = code / 256;
        if shifted <= max {
            return shifted;
        }
    }
    code
}

/// Normalizes an operation code (see `normalized`).
pub fn normalize_operation_code(code: u16) -> (r: u16)
    ensures
        r == normalized(code, MAX_OPCODE),
{
    normalize_code(code, MAX_OPCODE)
}

/// Normalizes an event code (see `normalized`).
pub fn normalize_event_code(code: u16) -> (r: u16)
    ensures
        r == normalized(code, MAX_EVCODE),
{
    normalize_code(code, MAX_EVCODE)
}

/// Normalizing is idempotent, and its result is in range or the code itself.
pub proof fn lemma_normalized_idempotent(code: u16, max: u16)
    ensures
        normalized(normalized(code, max), max) == normalized(code, max),
        normalized(code, max) <= max || normalized(code, max) == code,
{
}

proof fn lemma_hex_run_len(bytes: Seq<u8>)
    ensures
        hex_run(bytes).len() == 2 * bytes.len(),
    decreases bytes.len(),
{
    if bytes.len() > 0 {
        lemma_hex_run_len(bytes.drop_last());
    }
}

/// A 16-byte character id reads as a UUID: 36 characters, with dashes at
/// positions 8, 13, 18 and 23 and hexadecimal digits elsewhere.
pub proof fn lemma_character_id_shape(bytes: Seq<u8>)
    requires
        bytes.len() == 16,
    ensures
        character_id_text(bytes).len() == 36,
        character_id_text(bytes)[8] == '-',
        character_id_text(bytes)[13] == '-',
        character_id_text(bytes)[18] == '-',
        character_id_text(bytes)[23] == '-',
{
    let b = bytes;
    lemma_hex_run_len(seq![b[3], b[2], b[1], b[0]]);
    lemma_hex_run_len(seq![b[5], b[4]]);
    lemma_hex_run_len(seq![b[7], b[6]]);
    lemma_hex_run_len(b.subrange(8, 10));
    lemma_hex_run_len(b.subrange(10, 16));
}

/// A code in range is left as it is, and one read with its two bytes
/// exchanged is brought back, provided the exchanged form is out of range.
pub proof fn lemma_normalized_restores_swapped(code: u16, max: u16)
    requires
        code <= max,
        (code % 256) * 256 + code / 256 > max,
    ensures
        normalized(code, max) == code,
        normalized(((code % 256) * 256 + code / 256) as u16, max) == code,
{
    let s = ((code % 256) * 256 + code / 256) as u16;
    assert(s as int == (code % 256) * 256 + code / 256);
    assert((s % 256) * 256 + s / 256 == code);
}

proof fn lemma_hex_run_index(bytes: Seq<u8>, i: int)
    requires
        0 <= i < bytes.len(),
    ensures
        hex_run(bytes).len() == 2 * bytes.len(),
        hex_run(bytes)[2 * i] == hex_digit((bytes[i] / 16) as int),
        hex_run(bytes)[2 * i + 1] == hex_digit((bytes[i] % 16) as int),
    decreases bytes.len(),
{
    lemma_hex_run_len(bytes);
    lemma_hex_run_len(bytes.drop_last());
    if i < bytes.len() - 1 {
        lemma_hex_run_index(bytes.drop_last(), i);
    }
}

/// Where the two hexadecimal digits of byte `j` of a 16-byte character id
/// start in its text: the first three groups hold their bytes in reverse
/// (little-endian) order, the last two in order.
pub open spec fn uuid_position(j: int) -> int {
    if j == 0 { 6 } else if j == 1 { 4 } else if j == 2 { 2 } else if j == 3 { 0 }
    else if j == 4 { 11 } else if j == 5 { 9 } else if j == 6 { 16 } else if j == 7 { 14 }
    else if j == 8 { 19 } else if j == 9 { 21 } else { 24 + 2 * (j - 10) }
}

/// Each byte of a 16-byte character id appears in its text as two lowercase
/// hexadecimal digits, high nibble first, at `uuid_position`.
pub proof fn lemma_character_id_digits(b: Seq<u8>, j: int)
    requires
        b.len() == 16,
        0 <= j < 16,
    ensures
        character_id_text(b)[uuid_position(j)] == hex_digit((b[j] / 16) as int),
        character_id_text(b)[uuid_position(j) + 1] == hex_digit((b[j] % 16) as int),
{
    let g1 = seq![b[3], b[2], b[1], b[0]];
    let g2 = seq![b[5], b[4]];
    let g3 = seq![b[7], b[6]];
    let g4 = b.subrange(8, 10);
    let g5 = b.subrange(10, 16);
    lemma_hex_run_len(g1);
    lemma_hex_run_len(g2);
    lemma_hex_run_len(g3);
    lemma_hex_run_len(g4);
    lemma_hex_run_len(g5);
    let t = character_id_text(b);
    if j < 4 {
        lemma_hex_run_index(g1, 3 - j);
    } else if j < 6 {
        lemma_hex_run_index(g2, 5 - j);
    } else if j < 8 {
        lemma_hex_run_index(g3, 7 - j);
    } else if j < 10 {
        lemma_hex_run_index(g4, j - 8);
    } else {
        lemma_hex_run_index(g5, j - 10);
    }
}

/// The hexadecimal digits are `0`-`9` then lowercase `a`-`f`.
pub proof fn lemma_hex_digits(n: int)
    requires
        0 <= n < 16,
    ensures
        n < 10 ==> hex_digit(n) as int == '0' as int + n,
        n >= 10 ==> hex_digit(n) as int == 'a' as int + (n - 10),
{
}

} // verus!
