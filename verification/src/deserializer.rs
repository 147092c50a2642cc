//! Protocol 18 value deserialization.
use vstd::prelude::*;
use std::collections::HashMap;
use vstd::slice::slice_to_vec;
use crate::cursor::{
    Cursor, read_compressed_int32, read_compressed_int64, read_compressed_uint32, read_string,
};
use crate::wire::{
    entries_eq, entry_in, float32_eq, float64_eq, items_eq, items_same_key, params_eq, same_key, values_eq,
    after, bytes_or_zeros, byte_values, custom_at, custom_items, custom_payload, dict_entries,
    dictionary_at, is_scalar_code, items_at, object_items, param_entries, param_table,
    param_table_from, scalar_at, typed_array_at, unpack_bools, value_at, bit_of, SpecValue,
    CUSTOM_TYPE_SLIM_BASE, TYPE_ARRAY, TYPE_BOOLEAN, TYPE_BOOL_FALSE, TYPE_BOOL_TRUE, TYPE_BYTE,
    TYPE_BYTE_ZERO, TYPE_COMPRESSED_INT, TYPE_COMPRESSED_LONG, TYPE_CUSTOM, TYPE_DICTIONARY,
    TYPE_DOUBLE, TYPE_DOUBLE_ZERO, TYPE_EVENT_DATA, TYPE_FLOAT, TYPE_FLOAT_ZERO, TYPE_HASHTABLE,
    TYPE_INT1, TYPE_INT1_NEG, TYPE_INT2, TYPE_INT2_NEG, TYPE_INT_ZERO, TYPE_LONG1, TYPE_LONG1_NEG,
    TYPE_LONG2, TYPE_LONG2_NEG, TYPE_LONG_ZERO, TYPE_NULL, TYPE_OBJECT_ARRAY,
    TYPE_OPERATION_REQUEST, TYPE_OPERATION_RESPONSE, TYPE_SHORT, TYPE_SHORT_ZERO, TYPE_STRING,
    TYPE_UNKNOWN,
};

verus! {

broadcast use vstd::std_specs::hash::group_hash_axioms;

/// A decoded Protocol 18 value.  `Float` and `Double` hold the IEEE-754 bit
/// patterns of the numbers; a `Dictionary` holds one entry per key, in the
/// order the keys first appeared, with the value read last for each key,
/// keys being told apart as a map tells them apart (`same_key`).
#[derive(Debug)]
pub enum PhotonValue {
    Null,
    Bool(bool),
    Byte(u8),
    Short(i16),
    Int(i32),
    Long(i64),
    Float(u32),
    Double(u64),
    String(String),
    Array(Vec<PhotonValue>),
    Dictionary(Vec<(PhotonValue, PhotonValue)>),
    ObjectArray(Vec<PhotonValue>),
    Custom { id: u8, data: Vec<u8> },
    OperationRequest { op_code: u8, params: HashMap<u8, PhotonValue> },
    OperationResponse {
        op_code: u8,
        return_code: i16,
        debug_message: String,
        params: HashMap<u8, PhotonValue>,
    },
    EventData { code: u8, params: HashMap<u8, PhotonValue> },
}

impl PhotonValue {
    /// The value as a mathematical object.
    pub open spec fn model(self) -> SpecValue
        decreases self,
    {
        match self {
            PhotonValue::Null => SpecValue::Null,
            PhotonValue::Bool(b) => SpecValue::Bool(b),
            PhotonValue::Byte(b) => SpecValue::Byte(b),
            PhotonValue::Short(v) => SpecValue::Short(v),
            PhotonValue::Int(v) => SpecValue::Int(v),
            PhotonValue::Long(v) => SpecValue::Long(v),
            PhotonValue::Float(v) => SpecValue::Float(v),
            PhotonValue::Double(v) => SpecValue::Double(v),
            PhotonValue::String(s) => SpecValue::String(s@),
            PhotonValue::Array(v) => SpecValue::Array(
                Seq::new(
                    v.len() as nat,
                    |i: int|
                        if 0 <= i < v.len() {
                            v[i].model()
                        } else {
                            SpecValue::Null
                        },
                ),
            ),
            PhotonValue::Dictionary(v) => SpecValue::Dictionary(
                Seq::new(
                    v.len() as nat,
                    |i: int|
                        if 0 <= i < v.len() {
                            (v[i].0.model(), v[i].1.model())
                        } else {
                            (SpecValue::Null, SpecValue::Null)
                        },
                ),
            ),
            PhotonValue::ObjectArray(v) => SpecValue::ObjectArray(
                Seq::new(
                    v.len() as nat,
                    |i: int|
                        if 0 <= i < v.len() {
                            v[i].model()
                        } else {
                            SpecValue::Null
                        },
                ),
            ),
            PhotonValue::Custom { id, data } => SpecValue::Custom { id, data: data@ },
            PhotonValue::OperationRequest { op_code, params } => SpecValue::OperationRequest {
                op_code,
                params: Map::new(
                    |k: u8| params@.contains_key(k),
                    |k: u8|
                        if params@.contains_key(k) {
                            params@[k].model()
                        } else {
                            SpecValue::Null
                        },
                ),
            },
            PhotonValue::OperationResponse { op_code, return_code, debug_message, params } =>
                SpecValue::OperationResponse {
                op_code,
                return_code,
                debug_message: debug_message@,
                params: Map::new(
                    |k: u8| params@.contains_key(k),
                    |k: u8|
                        if params@.contains_key(k) {
                            params@[k].model()
                        } else {
                            SpecValue::Null
                        },
                ),
            },
            PhotonValue::EventData { code, params } => SpecValue::EventData {
                code,
                params: Map::new(
                    |k: u8| params@.contains_key(k),
                    |k: u8|
                        if params@.contains_key(k) {
                            params@[k].model()
                        } else {
                            SpecValue::Null
                        },
                ),
            },
        }
    }
}

/// The models of a sequence of values.
pub open spec fn values_model(v: Seq<PhotonValue>) -> Seq<SpecValue> {
    Seq::new(v.len(), |i: int| v[i].model())
}

/// The models of a sequence of entries.
pub open spec fn entries_model(v: Seq<(PhotonValue, PhotonValue)>) -> Seq<(SpecValue, SpecValue)> {
    Seq::new(v.len(), |i: int| (v[i].0.model(), v[i].1.model()))
}

/// The models of the values of a parameter table.
pub open spec fn params_model(m: Map<u8, PhotonValue>) -> Map<u8, SpecValue> {
    Map::new(|k: u8| m.contains_key(k), |k: u8| m[k].model())
}

proof fn lemma_values_push(v: Seq<PhotonValue>, x: PhotonValue)
    ensures
        values_model(v.push(x)) == values_model(v).push(x.model()),
{
    assert(values_model(v.push(x)) =~= values_model(v).push(x.model()));
}

proof fn lemma_entries_push(v: Seq<(PhotonValue, PhotonValue)>, k: PhotonValue, x: PhotonValue)
    ensures
        entries_model(v.push((k, x))) == entries_model(v).push((k.model(), x.model())),
{
    assert(entries_model(v.push((k, x))) =~= entries_model(v).push((k.model(), x.model())));
}

proof fn lemma_params_insert(m: Map<u8, PhotonValue>, k: u8, x: PhotonValue)
    ensures
        params_model(m.insert(k, x)) == params_model(m).insert(k, x.model()),
{
    assert(params_model(m.insert(k, x)) =~= params_model(m).insert(k, x.model()));
}

pub proof fn lemma_array_models(v: Vec<PhotonValue>)
    ensures
        PhotonValue::Array(v).model() == SpecValue::Array(values_model(v@)),
        PhotonValue::ObjectArray(v).model() == SpecValue::ObjectArray(values_model(v@)),
{
    if let SpecValue::Array(s) = PhotonValue::Array(v).model() {
        assert(s =~= values_model(v@));
    }
    if let SpecValue::ObjectArray(s) = PhotonValue::ObjectArray(v).model() {
        assert(s =~= values_model(v@));
    }
}

pub proof fn lemma_dictionary_model(v: Vec<(PhotonValue, PhotonValue)>)
    ensures
        PhotonValue::Dictionary(v).model() == SpecValue::Dictionary(entries_model(v@)),
{
    if let SpecValue::Dictionary(s) = PhotonValue::Dictionary(v).model() {
        assert(s =~= entries_model(v@));
    }
}

proof fn lemma_request_model(op_code: u8, m: HashMap<u8, PhotonValue>)
    ensures
        (PhotonValue::OperationRequest { op_code, params: m }).model() == (SpecValue::OperationRequest {
            op_code,
            params: params_model(m@),
        }),
{
    if let SpecValue::OperationRequest { params, .. } = (PhotonValue::OperationRequest { op_code, params: m }).model() {
        assert(params =~= params_model(m@));
    }
}

proof fn lemma_event_model(code: u8, m: HashMap<u8, PhotonValue>)
    ensures
        (PhotonValue::EventData { code, params: m }).model() == (SpecValue::EventData {
            code,
            params: params_model(m@),
        }),
{
    if let SpecValue::EventData { params, .. } = (PhotonValue::EventData { code, params: m }).model() {
        assert(params =~= params_model(m@));
    }
}

proof fn lemma_response_model(op_code: u8, return_code: i16, msg: String, m: HashMap<u8, PhotonValue>)
    ensures
        (PhotonValue::OperationResponse { op_code, return_code, debug_message: msg, params: m }).model()
            == (SpecValue::OperationResponse {
            op_code,
            return_code,
            debug_message: msg@,
            params: params_model(m@),
        }),
{
    if let SpecValue::OperationResponse { params, .. } = (PhotonValue::OperationResponse {
        op_code,
        return_code,
        debug_message: msg,
        params: m,
    }).model() {
        assert(params =~= params_model(m@));
    }
}

/// Reads the payload of a custom value.
fn deserialize_custom_payload(cursor: &mut Cursor, custom_id: u8, is_slim: bool) -> (r: PhotonValue)
    ensures
        final(cursor).data() == old(cursor).data(),
        (r.model(), final(cursor).pos()) == custom_payload(old(cursor).data(), old(cursor).pos(), custom_id, is_slim),
        old(cursor).pos() <= final(cursor).pos() <= final(cursor).data().len(),
{
    let size = read_compressed_uint32(cursor);
    let remaining = cursor.remaining();
    if size as usize > remaining {
        if is_slim {
            let data = cursor.take(remaining);
            return PhotonValue::Custom { id: custom_id, data: slice_to_vec(data) };
        }
        return PhotonValue::Null;
    }
    let data = cursor.take(size as usize);
    PhotonValue::Custom { id: custom_id, data: slice_to_vec(data) }
}


/// Reads a custom value under type code `gp_type`.
fn deserialize_custom(cursor: &mut Cursor, gp_type: u8) -> (r: PhotonValue)
    ensures
        final(cursor).data() == old(cursor).data(),
        (r.model(), final(cursor).pos()) == custom_at(old(cursor).data(), old(cursor).pos(), gp_type),
        old(cursor).pos() <= final(cursor).pos() <= final(cursor).data().len(),
{
    proof { cursor.lemma_within(); }
    let is_slim = gp_type >= CUSTOM_TYPE_SLIM_BASE;
    let custom_id = if is_slim {
        gp_type - CUSTOM_TYPE_SLIM_BASE
    } else {
        cursor.read_u8_or_zero()
    };
    deserialize_custom_payload(cursor, custom_id, is_slim)
}

/// Reads `n` non-slim custom payloads with the same id.
fn read_custom_items(cursor: &mut Cursor, custom_id: u8, n: u32) -> (r: Vec<PhotonValue>)
    ensures
        final(cursor).data() == old(cursor).data(),
        (values_model(r@), final(cursor).pos()) == custom_items(
            old(cursor).data(),
            old(cursor).pos(),
            custom_id,
            n as nat,
            Seq::empty(),
        ),
        old(cursor).pos() <= final(cursor).pos() <= final(cursor).data().len(),
{
    let ghost d = cursor.data();
    let ghost p = cursor.pos();
    proof { cursor.lemma_within(); }
    let mut items: Vec<PhotonValue> = Vec::new();
    let mut i: u32 = 0;
    assert(values_model(items@) =~= Seq::empty());
    while i < n
        invariant
            d == old(cursor).data(),
            p == old(cursor).pos(),
            cursor.data() == d,
            p <= cursor.pos() <= d.len(),
            i <= n,
            custom_items(d, p, custom_id, n as nat, Seq::empty()) == custom_items(
                d,
                cursor.pos(),
                custom_id,
                (n - i) as nat,
                values_model(items@),
            ),
        decreases n - i,
    {
        let v = deserialize_custom_payload(cursor, custom_id, false);
        proof { lemma_values_push(items@, v); }
        items.push(v);
        i = i + 1;
    }
    items
}

/// Whether a type code has no nested values.
fn is_scalar(tc: u8) -> (b: bool)
    ensures
        b == is_scalar_code(tc),
{
    tc == TYPE_UNKNOWN || tc == TYPE_NULL || (TYPE_BOOLEAN <= tc && tc <= TYPE_STRING) || (
    TYPE_COMPRESSED_INT <= tc && tc <= TYPE_LONG2_NEG) || (TYPE_BOOL_FALSE <= tc && tc
        <= TYPE_BYTE_ZERO)
}

/// Reads a value whose type code has no nested values.
fn deserialize_scalar(cursor: &mut Cursor, tc: u8) -> (r: PhotonValue)
    ensures
        final(cursor).data() == old(cursor).data(),
        (r.model(), final(cursor).pos()) == scalar_at(old(cursor).data(), old(cursor).pos(), tc),
        old(cursor).pos() <= final(cursor).pos() <= final(cursor).data().len(),
{
    proof { cursor.lemma_within(); }
    if tc == TYPE_BOOLEAN {
        PhotonValue::Bool(cursor.read_u8_or_zero() != 0)
    } else if tc == TYPE_BYTE {
        PhotonValue::Byte(cursor.read_u8_or_zero())
    } else if tc == TYPE_SHORT {
        PhotonValue::Short(cursor.read_i16_or_zero())
    } else if tc == TYPE_FLOAT {
        PhotonValue::Float(cursor.read_u32_or_zero())
    } else if tc == TYPE_DOUBLE {
        PhotonValue::Double(cursor.read_u64_or_zero())
    } else if tc == TYPE_STRING {
        PhotonValue::String(read_string(cursor))
    } else if tc == TYPE_COMPRESSED_INT {
        PhotonValue::Int(read_compressed_int32(cursor))
    } else if tc == TYPE_COMPRESSED_LONG {
        PhotonValue::Long(read_compressed_int64(cursor))
    } else if tc == TYPE_INT1 {
        PhotonValue::Int(cursor.read_u8_or_zero() as i32)
    } else if tc == TYPE_INT1_NEG {
        PhotonValue::Int(-(cursor.read_u8_or_zero() as i32))
    } else if tc == TYPE_INT2 {
        PhotonValue::Int(cursor.read_u16_or_zero() as i32)
    } else if tc == TYPE_INT2_NEG {
        PhotonValue::Int(-(cursor.read_u16_or_zero() as i32))
    } else if tc == TYPE_LONG1 {
        PhotonValue::Long(cursor.read_u8_or_zero() as i64)
    } else if tc == TYPE_LONG1_NEG {
        PhotonValue::Long(-(cursor.read_u8_or_zero() as i64))
    } else if tc == TYPE_LONG2 {
        PhotonValue::Long(cursor.read_u16_or_zero() as i64)
    } else if tc == TYPE_LONG2_NEG {
        PhotonValue::Long(-(cursor.read_u16_or_zero() as i64))
    } else if tc == TYPE_BOOL_FALSE {
        PhotonValue::Bool(false)
    } else if tc == TYPE_BOOL_TRUE {
        PhotonValue::Bool(true)
    } else if tc == TYPE_SHORT_ZERO {
        PhotonValue::Short(0)
    } else if tc == TYPE_INT_ZERO {
        PhotonValue::Int(0)
    } else if tc == TYPE_LONG_ZERO {
        PhotonValue::Long(0)
    } else if tc == TYPE_FLOAT_ZERO {
        PhotonValue::Float(0)
    } else if tc == TYPE_DOUBLE_ZERO {
        PhotonValue::Double(0)
    } else if tc == TYPE_BYTE_ZERO {
        PhotonValue::Byte(0)
    } else {
        PhotonValue::Null
    }
}

/// Deserializes a single Protocol 18 value given its type code.
pub fn deserialize(cursor: &mut Cursor, tc: u8) -> (r: PhotonValue)
    ensures
        final(cursor).data() == old(cursor).data(),
        (r.model(), final(cursor).pos()) == value_at(old(cursor).data(), old(cursor).pos(), tc),
        old(cursor).pos() <= final(cursor).pos() <= final(cursor).data().len(),
    decreases old(cursor).data().len() - old(cursor).pos(), 3int, 0int,
{
    let ghost d = cursor.data();
    let ghost p = cursor.pos();
    proof { cursor.lemma_within(); }
    if tc >= CUSTOM_TYPE_SLIM_BASE {
        return deserialize_custom(cursor, tc);
    }
    if is_scalar(tc) {
        return deserialize_scalar(cursor, tc);
    }
    if tc == TYPE_CUSTOM {
        deserialize_custom(cursor, 0)
    } else if tc == TYPE_DICTIONARY || tc == TYPE_HASHTABLE {
        deserialize_dictionary(cursor)
    } else if tc == TYPE_OBJECT_ARRAY {
        let n = read_compressed_uint32(cursor);
        let items = read_object_items(cursor, n, Ghost(d.len() - p));
        proof { lemma_array_models(items); }
        PhotonValue::ObjectArray(items)
    } else if tc == TYPE_OPERATION_REQUEST {
        let op_code = cursor.read_u8_or_zero();
        let params = read_param_table_within(cursor, Ghost(d.len() - p));
        proof { lemma_request_model(op_code, params); }
        PhotonValue::OperationRequest { op_code, params }
    } else if tc == TYPE_OPERATION_RESPONSE {
        let op_code = cursor.read_u8_or_zero();
        let return_code = cursor.read_i16_or_zero();
        let mut debug_message = String::new();
        if cursor.remaining() > 0 {
            let inner_tc = cursor.read_u8_or_zero();
            let v = deserialize(cursor, inner_tc);
            if let PhotonValue::String(s) = v {
                debug_message = s;
            }
        }
        let params = read_param_table_within(cursor, Ghost(d.len() - p));
        proof { lemma_response_model(op_code, return_code, debug_message, params); }
        PhotonValue::OperationResponse { op_code, return_code, debug_message, params }
    } else if tc == TYPE_EVENT_DATA {
        let code = cursor.read_u8_or_zero();
        let params = read_param_table_within(cursor, Ghost(d.len() - p));
        proof { lemma_event_model(code, params); }
        PhotonValue::EventData { code, params }
    } else if tc == TYPE_ARRAY {
        let n = read_compressed_uint32(cursor);
        let inner_tc = cursor.read_u8_or_zero();
        let items = read_items(cursor, inner_tc, n, Ghost(d.len() - p));
        proof { lemma_array_models(items); }
        PhotonValue::Array(items)
    } else if tc & TYPE_ARRAY == TYPE_ARRAY {
        assert(tc > TYPE_ARRAY && tc & !TYPE_ARRAY == tc - TYPE_ARRAY) by (bit_vector)
            requires tc & TYPE_ARRAY == TYPE_ARRAY, tc != TYPE_ARRAY, tc < CUSTOM_TYPE_SLIM_BASE;
        deserialize_typed_array(cursor, tc & !TYPE_ARRAY)
    } else {
        assert(!(tc > TYPE_ARRAY)) by (bit_vector)
            requires tc & TYPE_ARRAY != TYPE_ARRAY, tc < CUSTOM_TYPE_SLIM_BASE;
        PhotonValue::Null
    }
}

/// Reads an array whose elements have type code `elem_type`.
fn deserialize_typed_array(cursor: &mut Cursor, elem_type: u8) -> (r: PhotonValue)
    ensures
        final(cursor).data() == old(cursor).data(),
        (r.model(), final(cursor).pos()) == typed_array_at(old(cursor).data(), old(cursor).pos(), elem_type),
        old(cursor).pos() <= final(cursor).pos() <= final(cursor).data().len(),
    decreases old(cursor).data().len() - old(cursor).pos(), 2int, 0int,
{
    let ghost d = cursor.data();
    let ghost p = cursor.pos();
    proof { cursor.lemma_within(); }
    let size = read_compressed_uint32(cursor);
    if elem_type == TYPE_BOOLEAN {
        let packed_len = ((size as u64 + 7) / 8) as usize;
        let packed = read_bytes_or_zeros(cursor, packed_len);
        let mut items: Vec<PhotonValue> = Vec::new();
        let mut i: u32 = 0;
        while i < size
            invariant
                i <= size,
                packed@.len() == packed_len,
                packed_len == ((size as nat) + 7) / 8,
                items@.len() == i,
                forall|j: int|
                    0 <= j < i ==> #[trigger] items@[j].model() == SpecValue::Bool(
                        bit_of(packed@[j / 8], (j % 8) as u8),
                    ),
            decreases size - i,
        {
            let b = packed[(i / 8) as usize];
            items.push(PhotonValue::Bool((b >> ((i % 8) as u8)) & 1u8 == 1u8));
            i = i + 1;
        }
        assert(values_model(items@) =~= unpack_bools(packed@, size as nat));
        proof { lemma_array_models(items); }
        PhotonValue::Array(items)
    } else if elem_type == TYPE_BYTE {
        let data = read_bytes_or_zeros(cursor, size as usize);
        let mut items: Vec<PhotonValue> = Vec::new();
        let mut i: usize = 0;
        while i < data.len()
            invariant
                i <= data@.len(),
                items@.len() == i,
                forall|j: int| 0 <= j < i ==> #[trigger] items@[j].model() == SpecValue::Byte(data@[j]),
            decreases data@.len() - i,
        {
            items.push(PhotonValue::Byte(data[i]));
            i = i + 1;
        }
        assert(values_model(items@) =~= byte_values(data@));
        proof { lemma_array_models(items); }
        PhotonValue::Array(items)
    } else if elem_type == TYPE_CUSTOM {
        let custom_id = cursor.read_u8_or_zero();
        let items = read_custom_items(cursor, custom_id, size);
        proof { lemma_array_models(items); }
        PhotonValue::Array(items)
    } else {
        let items = read_items(cursor, elem_type, size, Ghost(d.len() - p));
        proof { lemma_array_models(items); }
        PhotonValue::Array(items)
    }
}

/// `n` zero bytes.
pub(crate) fn zero_bytes(n: usize) -> (r: Vec<u8>)
    ensures
        r@ == crate::wire::zeros(n as nat),
{
    let mut zeros: Vec<u8> = Vec::new();
    let mut i: usize = 0;
    while i < n
        invariant
            i <= n,
            zeros@ == crate::wire::zeros(i as nat),
        decreases n - i,
    {
        zeros.push(0u8);
        i = i + 1;
        assert(zeros@ =~= crate::wire::zeros(i as nat));
    }
    zeros
}

/// Reads `n` bytes, or gives `n` zero bytes and moves to the end when fewer remain.
fn read_bytes_or_zeros(cursor: &mut Cursor, n: usize) -> (r: Vec<u8>)
    ensures
        final(cursor).data() == old(cursor).data(),
        r@ == bytes_or_zeros(old(cursor).data(), old(cursor).pos(), n as nat),
        final(cursor).pos() == after(old(cursor).data(), old(cursor).pos(), n as int),
        old(cursor).pos() <= final(cursor).pos() <= final(cursor).data().len(),
{
    proof { cursor.lemma_within(); }
    if n <= cursor.remaining() {
        let bytes = cursor.take(n);
        slice_to_vec(bytes)
    } else {
        cursor.skip_to_end();
        zero_bytes(n)
    }
}

/// Reads `n` values of type code `tc`.
fn read_items(cursor: &mut Cursor, tc: u8, n: u32, Ghost(bound): Ghost<int>) -> (r: Vec<PhotonValue>)
    requires
        n > 0 ==> old(cursor).data().len() - old(cursor).pos() < bound,
    ensures
        final(cursor).data() == old(cursor).data(),
        (values_model(r@), final(cursor).pos()) == items_at(
            old(cursor).data(),
            old(cursor).pos(),
            tc,
            n as nat,
            bound,
            Seq::empty(),
        ),
        old(cursor).pos() <= final(cursor).pos() <= final(cursor).data().len(),
    decreases bound, 0int, 0int,
{
    let ghost d = cursor.data();
    let ghost p = cursor.pos();
    proof { cursor.lemma_within(); }
    let mut items: Vec<PhotonValue> = Vec::new();
    let mut i: u32 = 0;
    assert(values_model(items@) =~= Seq::empty());
    while i < n
        invariant
            d == old(cursor).data(),
            p == old(cursor).pos(),
            cursor.data() == d,
            0 <= p <= cursor.pos() <= d.len(),
            n > 0 ==> d.len() - p < bound,
            i <= n,
            items_at(d, p, tc, n as nat, bound, Seq::empty()) == items_at(
                d,
                cursor.pos(),
                tc,
                (n - i) as nat,
                bound,
                values_model(items@),
            ),
        decreases n - i,
    {
        let v = deserialize(cursor, tc);
        proof { lemma_values_push(items@, v); }
        items.push(v);
        i = i + 1;
    }
    items
}

/// Reads `n` values each preceded by its type code.
fn read_object_items(cursor: &mut Cursor, n: u32, Ghost(bound): Ghost<int>) -> (r: Vec<PhotonValue>)
    requires
        n > 0 ==> old(cursor).data().len() - old(cursor).pos() < bound,
    ensures
        final(cursor).data() == old(cursor).data(),
        (values_model(r@), final(cursor).pos()) == object_items(
            old(cursor).data(),
            old(cursor).pos(),
            n as nat,
            bound,
            Seq::empty(),
        ),
        old(cursor).pos() <= final(cursor).pos() <= final(cursor).data().len(),
    decreases bound, 0int, 0int,
{
    let ghost d = cursor.data();
    let ghost p = cursor.pos();
    proof { cursor.lemma_within(); }
    let mut items: Vec<PhotonValue> = Vec::new();
    let mut i: u32 = 0;
    assert(values_model(items@) =~= Seq::empty());
    while i < n
        invariant
            d == old(cursor).data(),
            p == old(cursor).pos(),
            cursor.data() == d,
            0 <= p <= cursor.pos() <= d.len(),
            n > 0 ==> d.len() - p < bound,
            i <= n,
            object_items(d, p, n as nat, bound, Seq::empty()) == object_items(
                d,
                cursor.pos(),
                (n - i) as nat,
                bound,
                values_model(items@),
            ),
        decreases n - i,
    {
        let tc = cursor.read_u8_or_zero();
        let v = deserialize(cursor, tc);
        proof { lemma_values_push(items@, v); }
        items.push(v);
        i = i + 1;
    }
    items
}

/// Numeric equality of single-precision numbers given by their bits.
fn float32_equal(x: u32, y: u32) -> (r: bool)
    ensures
        r == float32_eq(x, y),
{
    let nan_x = (x & 0x7f80_0000u32) == 0x7f80_0000u32 && (x & 0x007f_ffffu32) != 0u32;
    let nan_y = (y & 0x7f80_0000u32) == 0x7f80_0000u32 && (y & 0x007f_ffffu32) != 0u32;
    !nan_x && !nan_y && (x == y || ((x & 0x7fff_ffffu32) == 0u32 && (y & 0x7fff_ffffu32) == 0u32))
}

/// Numeric equality of double-precision numbers given by their bits.
fn float64_equal(x: u64, y: u64) -> (r: bool)
    ensures
        r == float64_eq(x, y),
{
    let nan_x = (x & 0x7ff0_0000_0000_0000u64) == 0x7ff0_0000_0000_0000u64 && (x & 0x000f_ffff_ffff_ffffu64)
        != 0u64;
    let nan_y = (y & 0x7ff0_0000_0000_0000u64) == 0x7ff0_0000_0000_0000u64 && (y & 0x000f_ffff_ffff_ffffu64)
        != 0u64;
    !nan_x && !nan_y && (x == y || ((x & 0x7fff_ffff_ffff_ffffu64) == 0u64 && (y & 0x7fff_ffff_ffff_ffffu64)
        == 0u64))
}

/// Whether two values are equal (`values_eq`): variant by variant and field
/// by field, numbers numerically, dictionaries as maps.
pub fn values_equal(a: &PhotonValue, b: &PhotonValue) -> (r: bool)
    ensures
        r == values_eq(a.model(), b.model()),
    decreases a, 0int,
{
    match (a, b) {
        (PhotonValue::Null, PhotonValue::Null) => true,
        (PhotonValue::Bool(x), PhotonValue::Bool(y)) => *x == *y,
        (PhotonValue::Byte(x), PhotonValue::Byte(y)) => *x == *y,
        (PhotonValue::Short(x), PhotonValue::Short(y)) => *x == *y,
        (PhotonValue::Int(x), PhotonValue::Int(y)) => *x == *y,
        (PhotonValue::Long(x), PhotonValue::Long(y)) => *x == *y,
        (PhotonValue::Float(x), PhotonValue::Float(y)) => float32_equal(*x, *y),
        (PhotonValue::Double(x), PhotonValue::Double(y)) => float64_equal(*x, *y),
        (PhotonValue::String(x), PhotonValue::String(y)) => *x == *y,
        (PhotonValue::Array(x), PhotonValue::Array(y)) => {
            proof {
                lemma_array_models(*x);
                lemma_array_models(*y);
            }
            value_vecs_equal(x, y)
        },
        (PhotonValue::ObjectArray(x), PhotonValue::ObjectArray(y)) => {
            proof {
                lemma_array_models(*x);
                lemma_array_models(*y);
            }
            value_vecs_equal(x, y)
        },
        (PhotonValue::Dictionary(x), PhotonValue::Dictionary(y)) => {
            proof {
                lemma_dictionary_model(*x);
                lemma_dictionary_model(*y);
            }
            dictionaries_equal(x, y)
        },
        (PhotonValue::Custom { id: i1, data: d1 }, PhotonValue::Custom { id: i2, data: d2 }) => {
            *i1 == *i2 && bytes_equal(d1, d2)
        },
        (
            PhotonValue::OperationRequest { op_code: c1, params: m1 },
            PhotonValue::OperationRequest { op_code: c2, params: m2 },
        ) => {
            proof {
                lemma_request_model(*c1, *m1);
                lemma_request_model(*c2, *m2);
            }
            *c1 == *c2 && params_equal(m1, m2)
        },
        (
            PhotonValue::OperationResponse { op_code: c1, return_code: r1, debug_message: s1, params: m1 },
            PhotonValue::OperationResponse { op_code: c2, return_code: r2, debug_message: s2, params: m2 },
        ) => {
            proof {
                lemma_response_model(*c1, *r1, *s1, *m1);
                lemma_response_model(*c2, *r2, *s2, *m2);
            }
            *c1 == *c2 && *r1 == *r2 && *s1 == *s2 && params_equal(m1, m2)
        },
        (PhotonValue::EventData { code: c1, params: m1 }, PhotonValue::EventData { code: c2, params: m2 }) => {
            proof {
                lemma_event_model(*c1, *m1);
                lemma_event_model(*c2, *m2);
            }
            *c1 == *c2 && params_equal(m1, m2)
        },
        _ => false,
    }
}

/// A copy of a value.
fn copy_value(v: &PhotonValue) -> (r: PhotonValue)
    ensures
        r.model() == v.model(),
    decreases v, 0int,
{
    match v {
        PhotonValue::Null => PhotonValue::Null,
        PhotonValue::Bool(x) => PhotonValue::Bool(*x),
        PhotonValue::Byte(x) => PhotonValue::Byte(*x),
        PhotonValue::Short(x) => PhotonValue::Short(*x),
        PhotonValue::Int(x) => PhotonValue::Int(*x),
        PhotonValue::Long(x) => PhotonValue::Long(*x),
        PhotonValue::Float(x) => PhotonValue::Float(*x),
        PhotonValue::Double(x) => PhotonValue::Double(*x),
        PhotonValue::String(x) => PhotonValue::String(x.clone()),
        PhotonValue::Array(x) => {
            let c = copy_values(x);
            proof {
                lemma_array_models(*x);
                lemma_array_models(c);
            }
            PhotonValue::Array(c)
        },
        PhotonValue::ObjectArray(x) => {
            let c = copy_values(x);
            proof {
                lemma_array_models(*x);
                lemma_array_models(c);
            }
            PhotonValue::ObjectArray(c)
        },
        PhotonValue::Dictionary(x) => {
            let c = copy_entries(x);
            proof {
                lemma_dictionary_model(*x);
                lemma_dictionary_model(c);
            }
            PhotonValue::Dictionary(c)
        },
        PhotonValue::Custom { id, data } => PhotonValue::Custom { id: *id, data: slice_to_vec(data.as_slice()) },
        PhotonValue::OperationRequest { op_code, params } => {
            let c = copy_params(params);
            proof {
                lemma_request_model(*op_code, *params);
                lemma_request_model(*op_code, c);
            }
            PhotonValue::OperationRequest { op_code: *op_code, params: c }
        },
        PhotonValue::OperationResponse { op_code, return_code, debug_message, params } => {
            let c = copy_params(params);
            let msg = debug_message.clone();
            proof {
                lemma_response_model(*op_code, *return_code, *debug_message, *params);
                lemma_response_model(*op_code, *return_code, msg, c);
            }
            PhotonValue::OperationResponse { op_code: *op_code, return_code: *return_code, debug_message: msg, params: c }
        },
        PhotonValue::EventData { code, params } => {
            let c = copy_params(params);
            proof {
                lemma_event_model(*code, *params);
                lemma_event_model(*code, c);
            }
            PhotonValue::EventData { code: *code, params: c }
        },
    }
}

/// A copy of a vector of values.
fn copy_values(x: &Vec<PhotonValue>) -> (r: Vec<PhotonValue>)
    ensures
        values_model(r@) == values_model(x@),
    decreases x, 0int,
{
    let mut r: Vec<PhotonValue> = Vec::new();
    let mut i: usize = 0;
    while i < x.len()
        invariant
            i <= x@.len(),
            values_model(r@) == values_model(x@).subrange(0, i as int),
        decreases x@.len() - i,
    {
        let c = copy_value(&x[i]);
        proof { lemma_values_push(r@, c); }
        r.push(c);
        i = i + 1;
        assert(values_model(r@) =~= values_model(x@).subrange(0, i as int));
    }
    assert(values_model(x@).subrange(0, i as int) =~= values_model(x@));
    r
}

/// A copy of a vector of dictionary entries.
fn copy_entries(x: &Vec<(PhotonValue, PhotonValue)>) -> (r: Vec<(PhotonValue, PhotonValue)>)
    ensures
        entries_model(r@) == entries_model(x@),
    decreases x, 0int,
{
    let mut r: Vec<(PhotonValue, PhotonValue)> = Vec::new();
    let mut i: usize = 0;
    while i < x.len()
        invariant
            i <= x@.len(),
            entries_model(r@) == entries_model(x@).subrange(0, i as int),
        decreases x@.len() - i,
    {
        let k = copy_value(&x[i].0);
        let v = copy_value(&x[i].1);
        proof { lemma_entries_push(r@, k, v); }
        r.push((k, v));
        i = i + 1;
        assert(entries_model(r@) =~= entries_model(x@).subrange(0, i as int));
    }
    assert(entries_model(x@).subrange(0, i as int) =~= entries_model(x@));
    r
}

/// A copy of a parameter table.
fn copy_params(m: &HashMap<u8, PhotonValue>) -> (r: HashMap<u8, PhotonValue>)
    ensures
        params_model(r@) == params_model(m@),
    decreases m, 0int,
{
    let mut r: HashMap<u8, PhotonValue> = HashMap::new();
    let mut k: u16 = 0;
    while k < 256
        invariant
            k <= 256,
            forall|j: u8|
                #[trigger] r@.contains_key(j) <==> ((j as int) < k && m@.contains_key(j)),
            forall|j: u8| r@.contains_key(j) ==> #[trigger] r@[j].model() == m@[j].model(),
        decreases 256 - k,
    {
        let key = k as u8;
        match m.get(&key) {
            Some(v) => {
                let c = copy_value(v);
                r.insert(key, c);
            },
            None => {},
        }
        k = k + 1;
    }
    assert(params_model(r@) =~= params_model(m@)) by {
        assert forall|j: u8| r@.contains_key(j) <==> m@.contains_key(j) by {
            assert((j as int) < 256);
        }
    }
    r
}

/// A copy keeps the value as it is.
impl Clone for PhotonValue {
    fn clone(&self) -> (r: Self)
        ensures
            r.model() == self.model(),
    {
        copy_value(self)
    }
}

/// `==` on values is `values_equal`: numbers compare numerically,
/// dictionaries as maps.
impl PartialEq for PhotonValue {
    fn eq(&self, other: &Self) -> (r: bool) {
        values_equal(self, other)
    }
}

impl vstd::std_specs::cmp::PartialEqSpecImpl for PhotonValue {
    open spec fn obeys_eq_spec() -> bool {
        true
    }

    open spec fn eq_spec(&self, other: &PhotonValue) -> bool {
        values_eq(self.model(), other.model())
    }
}

/// Whether a dictionary takes `a` and `b` for the same key (`same_key`).
pub fn keys_equal(a: &PhotonValue, b: &PhotonValue) -> (r: bool)
    ensures
        r == same_key(a.model(), b.model()),
    decreases a, 1int,
{
    match (a, b) {
        (PhotonValue::Float(x), PhotonValue::Float(y)) => {
            *x == *y && !((*x & 0x7f80_0000u32) == 0x7f80_0000u32 && (*x & 0x007f_ffffu32) != 0u32)
        },
        (PhotonValue::Double(x), PhotonValue::Double(y)) => {
            *x == *y && !((*x & 0x7ff0_0000_0000_0000u64) == 0x7ff0_0000_0000_0000u64 && (*x
                & 0x000f_ffff_ffff_ffffu64) != 0u64)
        },
        (PhotonValue::Array(x), PhotonValue::Array(y)) => {
            proof {
                lemma_array_models(*x);
                lemma_array_models(*y);
            }
            key_vecs_equal(x, y)
        },
        (PhotonValue::ObjectArray(x), PhotonValue::ObjectArray(y)) => {
            proof {
                lemma_array_models(*x);
                lemma_array_models(*y);
            }
            key_vecs_equal(x, y)
        },
        (PhotonValue::Float(_), _) => false,
        (PhotonValue::Double(_), _) => false,
        (PhotonValue::Array(_), _) => false,
        (PhotonValue::ObjectArray(_), _) => false,
        _ => values_equal(a, b),
    }
}

/// Whether two byte vectors are equal.
fn bytes_equal(x: &Vec<u8>, y: &Vec<u8>) -> (r: bool)
    ensures
        r == (x@ == y@),
{
    if x.len() != y.len() {
        return false;
    }
    let mut i: usize = 0;
    while i < x.len()
        invariant
            x@.len() == y@.len(),
            i <= x@.len(),
            forall|j: int| 0 <= j < i ==> x@[j] == y@[j],
        decreases x@.len() - i,
    {
        if x[i] != y[i] {
            return false;
        }
        i = i + 1;
    }
    assert(x@ =~= y@);
    true
}

/// Whether two vectors of values have equal lengths and equal elements.
fn value_vecs_equal(x: &Vec<PhotonValue>, y: &Vec<PhotonValue>) -> (r: bool)
    ensures
        r == items_eq(values_model(x@), values_model(y@)),
    decreases x, 0int,
{
    if x.len() != y.len() {
        return false;
    }
    let mut i: usize = 0;
    while i < x.len()
        invariant
            x@.len() == y@.len(),
            i <= x@.len(),
            forall|j: int| 0 <= j < i ==> values_eq(#[trigger] values_model(x@)[j], values_model(y@)[j]),
        decreases x@.len() - i,
    {
        if !values_equal(&x[i], &y[i]) {
            assert(!values_eq(values_model(x@)[i as int], values_model(y@)[i as int]));
            return false;
        }
        i = i + 1;
    }
    true
}

/// Whether two vectors of values have equal lengths and elements taken for
/// the same keys.
fn key_vecs_equal(x: &Vec<PhotonValue>, y: &Vec<PhotonValue>) -> (r: bool)
    ensures
        r == items_same_key(values_model(x@), values_model(y@)),
    decreases x, 0int,
{
    if x.len() != y.len() {
        return false;
    }
    let mut i: usize = 0;
    while i < x.len()
        invariant
            x@.len() == y@.len(),
            i <= x@.len(),
            forall|j: int| 0 <= j < i ==> same_key(#[trigger] values_model(x@)[j], values_model(y@)[j]),
        decreases x@.len() - i,
    {
        if !keys_equal(&x[i], &y[i]) {
            assert(!same_key(values_model(x@)[i as int], values_model(y@)[i as int]));
            return false;
        }
        i = i + 1;
    }
    true
}

/// Whether some entry of `y` has a key taken for `e`'s key and a value equal
/// to `e`'s value.
fn entry_matched(e: &(PhotonValue, PhotonValue), y: &Vec<(PhotonValue, PhotonValue)>) -> (r: bool)
    ensures
        r == entry_in((e.0.model(), e.1.model()), entries_model(y@)),
    decreases e, 0int,
{
    let ghost ym = entries_model(y@);
    let mut j: usize = 0;
    while j < y.len()
        invariant
            ym == entries_model(y@),
            j <= y@.len(),
            forall|k: int|
                0 <= k < j ==> !(same_key(e.0.model(), #[trigger] ym[k].0) && values_eq(e.1.model(), ym[k].1)),
        decreases y@.len() - j,
    {
        if keys_equal(&e.0, &y[j].0) && values_equal(&e.1, &y[j].1) {
            assert(same_key(e.0.model(), ym[j as int].0) && values_eq(e.1.model(), ym[j as int].1));
            return true;
        }
        j = j + 1;
    }
    false
}

/// Whether two dictionaries are equal as maps (`values_eq`).
fn dictionaries_equal(x: &Vec<(PhotonValue, PhotonValue)>, y: &Vec<(PhotonValue, PhotonValue)>) -> (r: bool)
    ensures
        r == entries_eq(entries_model(x@), entries_model(y@)),
    decreases x, 0int,
{
    let ghost xm = entries_model(x@);
    let ghost ym = entries_model(y@);
    if x.len() != y.len() {
        return false;
    }
    let mut i: usize = 0;
    while i < x.len()
        invariant
            xm == entries_model(x@),
            ym == entries_model(y@),
            x@.len() == y@.len(),
            i <= x@.len(),
            forall|k: int| 0 <= k < i ==> entry_in(#[trigger] xm[k], ym),
        decreases x@.len() - i,
    {
        if !entry_matched(&x[i], y) {
            assert(xm[i as int] == (x@[i as int].0.model(), x@[i as int].1.model()));
            return false;
        }
        assert(xm[i as int] == (x@[i as int].0.model(), x@[i as int].1.model()));
        i = i + 1;
    }
    assert(xm.len() == x@.len() && ym.len() == y@.len());
    true
}

/// Whether two parameter tables hold the same keys with equal values.
fn params_equal(x: &HashMap<u8, PhotonValue>, y: &HashMap<u8, PhotonValue>) -> (r: bool)
    ensures
        r == params_eq(params_model(x@), params_model(y@)),
    decreases x, 0int,
{
    let mut k: u16 = 0;
    while k < 256
        invariant
            k <= 256,
            forall|j: u8|
                (j as int) < k ==> (#[trigger] x@.contains_key(j) <==> y@.contains_key(j)) && (x@.contains_key(j)
                    ==> values_eq(x@[j].model(), y@[j].model())),
        decreases 256 - k,
    {
        let key = k as u8;
        match (x.get(&key), y.get(&key)) {
            (None, None) => {},
            (Some(u), Some(v)) => {
                if !values_equal(u, v) {
                    assert(params_model(x@).contains_key(key));
                    return false;
                }
            },
            _ => {
                assert(params_model(x@).contains_key(key) != params_model(y@).contains_key(key));
                return false;
            },
        }
        k = k + 1;
    }
    assert(params_model(x@).dom() =~= params_model(y@).dom()) by {
        assert forall|j: u8| x@.contains_key(j) <==> y@.contains_key(j) by {
            assert((j as int) < 256);
        }
    }
    assert forall|j: u8| params_model(x@).contains_key(j) implies values_eq(
        params_model(x@)[j],
        params_model(y@)[j],
    ) by {
        assert((j as int) < 256);
    }
    true
}

/// Adds an entry to a dictionary as a map does: an entry whose key `key` is
/// taken for keeps its key and gets the new value; otherwise the entry goes
/// at the end.
fn insert_entry(entries: &mut Vec<(PhotonValue, PhotonValue)>, key: PhotonValue, val: PhotonValue)
    ensures
        entries_model(final(entries)@) == crate::wire::dict_insert(
            entries_model(old(entries)@),
            key.model(),
            val.model(),
        ),
{
    let ghost em = entries_model(entries@);
    let mut i: usize = entries.len();
    while i > 0
        invariant
            entries@ == old(entries)@,
            em == entries_model(entries@),
            i <= entries@.len(),
            crate::wire::key_index(em, key.model(), em.len() as int) == crate::wire::key_index(
                em,
                key.model(),
                i as int,
            ),
        decreases i,
    {
        if keys_equal(&key, &entries[i - 1].0) {
            let ghost vm = val.model();
            let mut pair = (PhotonValue::Null, PhotonValue::Null);
            std::mem::swap(&mut pair, &mut entries[i - 1]);
            let old_key = pair.0;
            entries.set(i - 1, (old_key, val));
            assert(entries_model(entries@) =~= em.update(i - 1, (em[i - 1].0, vm)));
            return;
        }
        i = i - 1;
    }
    proof { lemma_entries_push(entries@, key, val); }
    entries.push((key, val));
}

/// Reads a dictionary.
fn deserialize_dictionary(cursor: &mut Cursor) -> (r: PhotonValue)
    ensures
        final(cursor).data() == old(cursor).data(),
        (r.model(), final(cursor).pos()) == dictionary_at(old(cursor).data(), old(cursor).pos()),
        old(cursor).pos() <= final(cursor).pos() <= final(cursor).data().len(),
    decreases old(cursor).data().len() - old(cursor).pos(), 1int, 0int,
{
    let ghost d = cursor.data();
    let ghost p = cursor.pos();
    proof { cursor.lemma_within(); }
    let key_tc = cursor.read_u8_or_zero();
    let val_tc = cursor.read_u8_or_zero();
    let count = read_compressed_uint32(cursor);
    let ghost q = cursor.pos();
    let mut entries: Vec<(PhotonValue, PhotonValue)> = Vec::new();
    let mut i: u32 = 0;
    assert(entries_model(entries@) =~= Seq::empty());
    while i < count
        invariant
            d == old(cursor).data(),
            p == old(cursor).pos(),
            cursor.data() == d,
            0 <= p < q <= cursor.pos() <= d.len() || count == 0,
            0 <= p <= cursor.pos() <= d.len(),
            i <= count,
            dict_entries(d, q, key_tc, val_tc, count as nat, d.len() - p, Seq::empty()) == dict_entries(
                d,
                cursor.pos(),
                key_tc,
                val_tc,
                (count - i) as nat,
                d.len() - p,
                entries_model(entries@),
            ),
        decreases count - i,
    {
        let kt = if key_tc == 0 {
            cursor.read_u8_or_zero()
        } else {
            key_tc
        };
        let vt = if val_tc == 0 {
            cursor.read_u8_or_zero()
        } else {
            val_tc
        };
        let key = deserialize(cursor, kt);
        let val = deserialize(cursor, vt);
        insert_entry(&mut entries, key, val);
        i = i + 1;
    }
    proof { lemma_dictionary_model(entries); }
    PhotonValue::Dictionary(entries)
}

/// Reads a parameter table whose entries lie strictly inside an enclosing
/// value that spans `bound` bytes to the end.
fn read_param_table_within(cursor: &mut Cursor, Ghost(bound): Ghost<int>) -> (r: HashMap<u8, PhotonValue>)
    requires
        old(cursor).data().len() - old(cursor).pos() <= bound,
    ensures
        final(cursor).data() == old(cursor).data(),
        (params_model(r@), final(cursor).pos()) == param_table(old(cursor).data(), old(cursor).pos(), bound),
        old(cursor).pos() <= final(cursor).pos() <= final(cursor).data().len(),
    decreases bound, 1int, 0int,
{
    let ghost d = cursor.data();
    let ghost p = cursor.pos();
    proof { cursor.lemma_within(); }
    let count = read_compressed_uint32(cursor);
    let ghost q = cursor.pos();
    let mut params: HashMap<u8, PhotonValue> = HashMap::new();
    let mut i: u32 = 0;
    assert(params_model(params@) =~= Map::empty());
    while i < count
        invariant_except_break
            d == old(cursor).data(),
            p == old(cursor).pos(),
            cursor.data() == d,
            0 <= p < q <= cursor.pos() <= d.len() || count == 0,
            d.len() - p <= bound,
            0 <= p <= cursor.pos() <= d.len(),
            i <= count,
            param_entries(d, q, count as nat, bound, Map::empty()) == param_entries(
                d,
                cursor.pos(),
                (count - i) as nat,
                bound,
                params_model(params@),
            ),
        ensures
            d == old(cursor).data(),
            p == old(cursor).pos(),
            cursor.data() == d,
            0 <= p <= cursor.pos() <= d.len(),
            param_entries(d, q, count as nat, bound, Map::empty()) == (params_model(params@), cursor.pos()),
        decreases count - i,
    {
        let key = match cursor.read_u8() {
            Some(k) => k,
            None => break,
        };
        let tc = match cursor.read_u8() {
            Some(t) => t,
            None => break,
        };
        let v = deserialize(cursor, tc);
        proof { lemma_params_insert(params@, key, v); }
        params.insert(key, v);
        i = i + 1;
    }
    params
}

/// Reads a parameter table.
pub fn read_parameter_table(cursor: &mut Cursor) -> (r: HashMap<u8, PhotonValue>)
    ensures
        final(cursor).data() == old(cursor).data(),
        (params_model(r@), final(cursor).pos()) == param_table_from(old(cursor).data(), old(cursor).pos()),
        old(cursor).pos() <= final(cursor).pos() <= final(cursor).data().len(),
{
    let ghost d = cursor.data();
    let ghost p = cursor.pos();
    read_param_table_within(cursor, Ghost(d.len() - p + 1))
}

/// Deserializes a parameter table from raw bytes.
pub fn deserialize_parameter_table(data: &[u8]) -> (r: HashMap<u8, PhotonValue>)
    ensures
        params_model(r@) == param_table_from(data@, 0).0,
{
    let mut cursor = Cursor::new(data);
    read_parameter_table(&mut cursor)
}

} // verus!
