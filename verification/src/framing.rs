//! Reading does not depend on the bytes before the read: every reader gives
//! the same result on bytes with anything put in front of them, its
//! position moved by the length of what was put in front.
use vstd::prelude::*;
use crate::wire::{
    after, byte_or_zero, bytes_or_zeros, compressed_u32, compressed_u64, custom_at, custom_items,
    custom_payload, dict_entries, dictionary_at, fits, i16_or_zero, is_scalar_code, items_at, le16, le32,
    le64, object_items, param_entries, param_table, param_table_from, scalar_at, string_at,
    typed_array_at, u16_or_zero, u32_or_zero, u64_or_zero, value_at, varint_scan, SpecValue,
};

verus! {

proof fn lemma_scan_shift(pre: Seq<u8>, e: Seq<u8>, p: int, i: nat, max: nat, acc: nat)
    requires
        0 <= p,
    ensures
        ({
            let r = varint_scan(e, p, i, max, acc);
            &&& varint_scan(pre + e, pre.len() + p, i, max, acc) == (r.0, r.1 + pre.len(), r.2)
            &&& (p <= e.len() ==> p <= r.1)
            &&& r.1 >= 0
            &&& (p + i <= e.len() ==> r.1 <= e.len())
            &&& (p + i > e.len() && i < max ==> r.1 == e.len())
        }),
    decreases max - i,
{
    let d = pre + e;
    let k = pre.len() as int;
    if i < max && 0 <= p + i < e.len() {
        assert(d[k + p + i] == e[p + i]);
        let g = e[p + i];
        if g >= 128 {
            lemma_scan_shift(pre, e, p, i + 1, max, acc + (g % 128) as nat * vstd::arithmetic::power2::pow2(7 * i));
        }
    }
}

proof fn lemma_compressed_shift(pre: Seq<u8>, e: Seq<u8>, p: int)
    requires
        0 <= p,
    ensures
        compressed_u32(pre + e, pre.len() + p) == (compressed_u32(e, p).0, compressed_u32(e, p).1 + pre.len()),
        compressed_u64(pre + e, pre.len() + p) == (compressed_u64(e, p).0, compressed_u64(e, p).1 + pre.len()),
        p <= e.len() ==> compressed_u32(e, p).1 >= p,
        p <= e.len() ==> compressed_u64(e, p).1 >= p,
        compressed_u32(e, p).1 >= 0,
        compressed_u64(e, p).1 >= 0,
        compressed_u32(e, p).1 <= e.len(),
        compressed_u64(e, p).1 <= e.len(),
{
    lemma_scan_shift(pre, e, p, 0, 5, 0);
    lemma_scan_shift(pre, e, p, 0, 10, 0);
}

proof fn lemma_bytes_shift(pre: Seq<u8>, e: Seq<u8>, p: int)
    requires
        0 <= p,
    ensures
        byte_or_zero(pre + e, pre.len() + p) == byte_or_zero(e, p),
        forall|m: int| 0 <= m ==> after(pre + e, pre.len() + p, m) == after(e, p, m) + pre.len(),
        forall|m: int| 0 <= m ==> fits(pre + e, pre.len() + p, m) == fits(e, p, m),
        u16_or_zero(pre + e, pre.len() + p) == u16_or_zero(e, p),
        i16_or_zero(pre + e, pre.len() + p) == i16_or_zero(e, p),
        u32_or_zero(pre + e, pre.len() + p) == u32_or_zero(e, p),
        u64_or_zero(pre + e, pre.len() + p) == u64_or_zero(e, p),
        forall|n: nat| bytes_or_zeros(pre + e, pre.len() + p, n) == bytes_or_zeros(e, p, n),
        forall|a: int, b: int| p <= a <= b <= e.len() ==> (pre + e).subrange(pre.len() + a, pre.len() + b)
            == e.subrange(a, b),
{
    let d = pre + e;
    let k = pre.len() as int;
    if p < e.len() {
        assert(d[k + p] == e[p]);
    }
    if fits(e, p, 2) {
        assert(d[k + p] == e[p] && d[k + p + 1] == e[p + 1]);
        assert(le16(d, k + p) == le16(e, p));
    }
    if fits(e, p, 4) {
        assert(d[k + p + 2] == e[p + 2] && d[k + p + 3] == e[p + 3]);
        assert(d[k + p] == e[p] && d[k + p + 1] == e[p + 1]);
        assert(le32(d, k + p) == le32(e, p));
    }
    if fits(e, p, 8) {
        assert(d[k + p] == e[p] && d[k + p + 1] == e[p + 1]);
        assert(d[k + p + 2] == e[p + 2] && d[k + p + 3] == e[p + 3]);
        assert(d[k + p + 4] == e[p + 4] && d[k + p + 5] == e[p + 5]);
        assert(d[k + p + 6] == e[p + 6] && d[k + p + 7] == e[p + 7]);
        assert(le64(d, k + p) == le64(e, p));
    }
    assert forall|a: int, b: int| p <= a <= b <= e.len() implies d.subrange(k + a, k + b) == e.subrange(a, b) by {
        assert(d.subrange(k + a, k + b) =~= e.subrange(a, b));
    }
    assert forall|n: nat| bytes_or_zeros(d, k + p, n) == bytes_or_zeros(e, p, n) by {
        if fits(e, p, n as int) {
            assert(d.subrange(k + p, k + p + n) =~= e.subrange(p, p + n));
        }
    }
}

proof fn lemma_string_shift(pre: Seq<u8>, e: Seq<u8>, p: int)
    requires
        0 <= p,
    ensures
        string_at(pre + e, pre.len() + p) == (string_at(e, p).0, string_at(e, p).1 + pre.len()),
        p <= e.len() ==> p <= string_at(e, p).1,
        string_at(e, p).1 >= 0,
{
    lemma_compressed_shift(pre, e, p);
    lemma_scan_shift(pre, e, p, 0, 5, 0);
    let (n, q) = compressed_u32(e, p);
    lemma_bytes_shift(pre, e, q);
}

proof fn lemma_custom_payload_shift(pre: Seq<u8>, e: Seq<u8>, p: int, id: u8, slim: bool)
    requires
        0 <= p,
    ensures
        custom_payload(pre + e, pre.len() + p, id, slim) == (
            custom_payload(e, p, id, slim).0,
            custom_payload(e, p, id, slim).1 + pre.len(),
        ),
        p <= e.len() ==> p <= custom_payload(e, p, id, slim).1,
        custom_payload(e, p, id, slim).1 >= 0,
{
    lemma_compressed_shift(pre, e, p);
    let (n, q) = compressed_u32(e, p);
    lemma_bytes_shift(pre, e, q);
}

proof fn lemma_custom_at_shift(pre: Seq<u8>, e: Seq<u8>, p: int, gp: u8)
    requires
        0 <= p,
    ensures
        custom_at(pre + e, pre.len() + p, gp) == (custom_at(e, p, gp).0, custom_at(e, p, gp).1 + pre.len()),
        p <= e.len() ==> p <= custom_at(e, p, gp).1,
        custom_at(e, p, gp).1 >= 0,
{
    lemma_bytes_shift(pre, e, p);
    lemma_custom_payload_shift(pre, e, after(e, p, 1), byte_or_zero(e, p), false);
    lemma_custom_payload_shift(pre, e, p, (gp - 0x80) as u8, true);
}

proof fn lemma_custom_items_shift(pre: Seq<u8>, e: Seq<u8>, p: int, id: u8, n: nat, acc: Seq<SpecValue>)
    requires
        0 <= p,
    ensures
        custom_items(pre + e, pre.len() + p, id, n, acc) == (
            custom_items(e, p, id, n, acc).0,
            custom_items(e, p, id, n, acc).1 + pre.len(),
        ),
        custom_items(e, p, id, n, acc).1 >= 0,
    decreases n,
{
    if n > 0 {
        lemma_custom_payload_shift(pre, e, p, id, false);
        let (v, q) = custom_payload(e, p, id, false);
        lemma_custom_items_shift(pre, e, q, id, (n - 1) as nat, acc.push(v));
    }
}

proof fn lemma_scalar_shift(pre: Seq<u8>, e: Seq<u8>, p: int, tc: u8)
    requires
        0 <= p <= e.len(),
    ensures
        scalar_at(pre + e, pre.len() + p, tc) == (scalar_at(e, p, tc).0, scalar_at(e, p, tc).1 + pre.len()),
        p <= scalar_at(e, p, tc).1,
{
    lemma_bytes_shift(pre, e, p);
    lemma_compressed_shift(pre, e, p);
    lemma_string_shift(pre, e, p);
}

#[verifier::spinoff_prover]
#[verifier::rlimit(60)]
proof fn lemma_value_shift(pre: Seq<u8>, e: Seq<u8>, p: int, tc: u8)
    requires
        0 <= p,
    ensures
        value_at(pre + e, pre.len() + p, tc) == (value_at(e, p, tc).0, value_at(e, p, tc).1 + pre.len()),
        p <= value_at(e, p, tc).1,
    decreases e.len() - p, 3int, 0int,
{
    let d = pre + e;
    let k = pre.len() as int;
    if p <= e.len() {
        lemma_bytes_shift(pre, e, p);
        lemma_compressed_shift(pre, e, p);
        if tc >= 0x80 {
            lemma_custom_at_shift(pre, e, p, tc);
        } else if is_scalar_code(tc) {
            lemma_scalar_shift(pre, e, p, tc);
        } else if tc == 19 {
            lemma_custom_at_shift(pre, e, p, 0);
        } else if tc == 20 || tc == 21 {
            lemma_dict_shift(pre, e, p);
        } else if tc == 23 {
            let (n, q) = compressed_u32(e, p);
            lemma_objects_shift(pre, e, q, n as nat, e.len() - p, Seq::empty());
        } else if tc == 24 || tc == 26 {
            let p1 = after(e, p, 1);
            lemma_table_shift(pre, e, p1, e.len() - p);
        } else if tc == 25 {
            let p1 = after(e, p, 1);
            let p2 = after(e, p1, 2);
            lemma_bytes_shift(pre, e, p1);
            let p3 = if 0 <= p2 < e.len() {
                assert(d[k + p2] == e[p2]);
                lemma_value_shift(pre, e, p2 + 1, e[p2]);
                value_at(e, p2 + 1, e[p2]).1
            } else {
                p2
            };
            lemma_table_shift(pre, e, p3, e.len() - p);
        } else if tc == 0x40 {
            let (n, q) = compressed_u32(e, p);
            lemma_bytes_shift(pre, e, q);
            lemma_items_shift(pre, e, after(e, q, 1), byte_or_zero(e, q), n as nat, e.len() - p, Seq::empty());
        } else if tc > 0x40 {
            lemma_typed_shift(pre, e, p, (tc - 0x40) as u8);
        }
    }
}

proof fn lemma_typed_shift(pre: Seq<u8>, e: Seq<u8>, p: int, elem: u8)
    requires
        0 <= p,
    ensures
        typed_array_at(pre + e, pre.len() + p, elem) == (
            typed_array_at(e, p, elem).0,
            typed_array_at(e, p, elem).1 + pre.len(),
        ),
        p <= typed_array_at(e, p, elem).1,
    decreases e.len() - p, 2int, 0int,
{
    lemma_compressed_shift(pre, e, p);
    if p <= e.len() {
        let (n, q) = compressed_u32(e, p);
        lemma_bytes_shift(pre, e, q);
        if elem == 2 || elem == 3 {
        } else if elem == 19 {
            lemma_custom_items_shift(pre, e, after(e, q, 1), byte_or_zero(e, q), n as nat, Seq::empty());
            lemma_custom_items_mono(e, after(e, q, 1), byte_or_zero(e, q), n as nat, Seq::empty());
        } else {
            lemma_items_shift(pre, e, q, elem, n as nat, e.len() - p, Seq::empty());
        }
    }
}

proof fn lemma_dict_shift(pre: Seq<u8>, e: Seq<u8>, p: int)
    requires
        0 <= p,
    ensures
        dictionary_at(pre + e, pre.len() + p) == (dictionary_at(e, p).0, dictionary_at(e, p).1 + pre.len()),
        p <= dictionary_at(e, p).1,
    decreases e.len() - p, 1int, 0int,
{
    if p <= e.len() {
        lemma_bytes_shift(pre, e, p);
        let p1 = after(e, p, 1);
        lemma_bytes_shift(pre, e, p1);
        let p2 = after(e, p1, 1);
        lemma_compressed_shift(pre, e, p2);
        let (n, p3) = compressed_u32(e, p2);
        lemma_entries_shift(
            pre,
            e,
            p3,
            byte_or_zero(e, p),
            byte_or_zero(e, p1),
            n as nat,
            e.len() - p,
            Seq::empty(),
        );
    }
}

proof fn lemma_items_shift(
    pre: Seq<u8>,
    e: Seq<u8>,
    p: int,
    tc: u8,
    n: nat,
    bound: int,
    acc: Seq<SpecValue>,
)
    requires
        0 <= p,
    ensures
        items_at(pre + e, pre.len() + p, tc, n, bound, acc) == (
            items_at(e, p, tc, n, bound, acc).0,
            items_at(e, p, tc, n, bound, acc).1 + pre.len(),
        ),
        p <= items_at(e, p, tc, n, bound, acc).1,
    decreases bound, 0int, n,
{
    if n > 0 && p <= e.len() && e.len() - p < bound {
        lemma_value_shift(pre, e, p, tc);
        let (v, q) = value_at(e, p, tc);
        lemma_items_shift(pre, e, q, tc, (n - 1) as nat, bound, acc.push(v));
    }
}

proof fn lemma_objects_shift(pre: Seq<u8>, e: Seq<u8>, p: int, n: nat, bound: int, acc: Seq<SpecValue>)
    requires
        0 <= p,
    ensures
        object_items(pre + e, pre.len() + p, n, bound, acc) == (
            object_items(e, p, n, bound, acc).0,
            object_items(e, p, n, bound, acc).1 + pre.len(),
        ),
        p <= object_items(e, p, n, bound, acc).1,
    decreases bound, 0int, n,
{
    if n > 0 && p <= e.len() && e.len() - p < bound {
        lemma_bytes_shift(pre, e, p);
        let p1 = after(e, p, 1);
        lemma_value_shift(pre, e, p1, byte_or_zero(e, p));
        let (v, q) = value_at(e, p1, byte_or_zero(e, p));
        lemma_objects_shift(pre, e, q, (n - 1) as nat, bound, acc.push(v));
    }
}

#[verifier::spinoff_prover]
#[verifier::rlimit(60)]
proof fn lemma_entries_shift(
    pre: Seq<u8>,
    e: Seq<u8>,
    p: int,
    kt0: u8,
    vt0: u8,
    n: nat,
    bound: int,
    acc: Seq<(SpecValue, SpecValue)>,
)
    requires
        0 <= p,
    ensures
        dict_entries(pre + e, pre.len() + p, kt0, vt0, n, bound, acc) == (
            dict_entries(e, p, kt0, vt0, n, bound, acc).0,
            dict_entries(e, p, kt0, vt0, n, bound, acc).1 + pre.len(),
        ),
        p <= dict_entries(e, p, kt0, vt0, n, bound, acc).1,
    decreases bound, 0int, n,
{
    if n > 0 && p <= e.len() && e.len() - p < bound {
        lemma_bytes_shift(pre, e, p);
        let kt = if kt0 == 0 { byte_or_zero(e, p) } else { kt0 };
        let p1 = if kt0 == 0 { after(e, p, 1) } else { p };
        lemma_bytes_shift(pre, e, p1);
        let vt = if vt0 == 0 { byte_or_zero(e, p1) } else { vt0 };
        let p2 = if vt0 == 0 { after(e, p1, 1) } else { p1 };
        lemma_value_shift(pre, e, p2, kt);
        let (kv, p3) = value_at(e, p2, kt);
        if p2 <= p3 <= e.len() {
            lemma_value_shift(pre, e, p3, vt);
            let (v, p4) = value_at(e, p3, vt);
            lemma_entries_shift(pre, e, p4, kt0, vt0, (n - 1) as nat, bound, crate::wire::dict_insert(acc, kv, v));
        }
    }
}

proof fn lemma_table_shift(pre: Seq<u8>, e: Seq<u8>, p: int, bound: int)
    requires
        0 <= p,
    ensures
        param_table(pre + e, pre.len() + p, bound) == (
            param_table(e, p, bound).0,
            param_table(e, p, bound).1 + pre.len(),
        ),
        p <= e.len() ==> p <= param_table(e, p, bound).1,
    decreases bound, 1int, 0int,
{
    lemma_compressed_shift(pre, e, p);
    let (n, q) = compressed_u32(e, p);
    lemma_params_shift(pre, e, q, n as nat, bound, Map::empty());
}

proof fn lemma_params_shift(pre: Seq<u8>, e: Seq<u8>, p: int, n: nat, bound: int, acc: Map<u8, SpecValue>)
    requires
        0 <= p,
    ensures
        param_entries(pre + e, pre.len() + p, n, bound, acc) == (
            param_entries(e, p, n, bound, acc).0,
            param_entries(e, p, n, bound, acc).1 + pre.len(),
        ),
        p <= param_entries(e, p, n, bound, acc).1,
    decreases bound, 0int, n,
{
    let d = pre + e;
    let k = pre.len() as int;
    if n > 0 && p <= e.len() && e.len() - p < bound && p + 2 <= e.len() {
        assert(d[k + p] == e[p] && d[k + p + 1] == e[p + 1]);
        lemma_value_shift(pre, e, p + 2, e[p + 1]);
        let (v, q) = value_at(e, p + 2, e[p + 1]);
        lemma_params_shift(pre, e, q, (n - 1) as nat, bound, acc.insert(e[p], v));
    }
}

proof fn lemma_custom_items_mono(e: Seq<u8>, p: int, id: u8, n: nat, acc: Seq<SpecValue>)
    requires
        0 <= p <= e.len(),
    ensures
        p <= custom_items(e, p, id, n, acc).1,
    decreases n,
{
    if n > 0 {
        lemma_custom_payload_shift(Seq::empty(), e, p, id, false);
        let (v, q) = custom_payload(e, p, id, false);
        lemma_custom_payload_bound(e, p, id);
        lemma_custom_items_mono(e, q, id, (n - 1) as nat, acc.push(v));
    }
}

proof fn lemma_custom_payload_bound(e: Seq<u8>, p: int, id: u8)
    requires
        0 <= p <= e.len(),
    ensures
        custom_payload(e, p, id, false).1 <= e.len(),
{
    lemma_compressed_shift(Seq::empty(), e, p);
}

/// A parameter table reads the same wherever its bytes stand: put after
/// any bytes, it gives the same parameters and ends as far after them.
pub proof fn lemma_parameter_table_ignores_what_precedes(pre: Seq<u8>, table: Seq<u8>)
    ensures
        param_table_from(pre + table, pre.len() as int) == (
            param_table_from(table, 0).0,
            param_table_from(table, 0).1 + pre.len(),
        ),
{
    lemma_table_shift(pre, table, 0, (table.len() + 1) as int);
    assert((pre + table).len() - pre.len() + 1 == table.len() + 1);
}

} // verus!
