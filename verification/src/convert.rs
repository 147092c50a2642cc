//! Conversions from decoded values to plain Rust values.
use vstd::prelude::*;
use std::collections::HashMap;
use crate::deserializer::{params_model, PhotonValue};
use crate::wire::SpecValue;

verus! {

broadcast use vstd::std_specs::hash::group_hash_axioms;

/// A floating-point number as read, by its IEEE-754 bits: a 32-bit `Single`
/// or a 64-bit `Double`.  Turning it into the other width is rounding, which
/// is left to the caller.
#[derive(Debug, Clone, Copy, PartialEq, Eq)]
pub enum FloatBits {
    Single(u32),
    Double(u64),
}

pub open spec fn as_bool(v: SpecValue) -> Option<bool> {
    match v {
        SpecValue::Bool(b) => Some(b),
        _ => None,
    }
}

pub open spec fn as_u8(v: SpecValue) -> Option<u8> {
    match v {
        SpecValue::Byte(b) => Some(b),
        _ => None,
    }
}

pub open spec fn as_i16(v: SpecValue) -> Option<i16> {
    match v {
        SpecValue::Short(x) => Some(x),
        _ => None,
    }
}

pub open spec fn as_i32(v: SpecValue) -> Option<i32> {
    match v {
        SpecValue::Int(x) => Some(x),
        SpecValue::Short(x) => Some(x as i32),
        SpecValue::Byte(x) => Some(x as i32),
        _ => None,
    }
}

pub open spec fn as_u32(v: SpecValue) -> Option<u32> {
    match v {
        SpecValue::Long(x) => Some(x as u32),
        SpecValue::Int(x) => Some(x as u32),
        SpecValue::Short(x) => Some(x as u32),
        SpecValue::Byte(x) => Some(x as u32),
        _ => None,
    }
}

pub open spec fn as_i64(v: SpecValue) -> Option<i64> {
    match v {
        SpecValue::Long(x) => Some(x),
        SpecValue::Int(x) => Some(x as i64),
        SpecValue::Short(x) => Some(x as i64),
        SpecValue::Byte(x) => Some(x as i64),
        _ => None,
    }
}

pub open spec fn as_u64(v: SpecValue) -> Option<u64> {
    match v {
        SpecValue::Long(x) => Some(x as u64),
        SpecValue::Int(x) => Some(x as u64),
        SpecValue::Short(x) => Some(x as u64),
        SpecValue::Byte(x) => Some(x as u64),
        _ => None,
    }
}

pub open spec fn as_float(v: SpecValue) -> Option<FloatBits> {
    match v {
        SpecValue::Float(x) => Some(FloatBits::Single(x)),
        SpecValue::Double(x) => Some(FloatBits::Double(x)),
        _ => None,
    }
}

pub open spec fn as_string(v: SpecValue) -> Option<Seq<char>> {
    match v {
        SpecValue::String(s) => Some(s),
        _ => None,
    }
}

/// The elements of an array, or of an object array when `objects` allows it.
pub open spec fn array_items(v: SpecValue, objects: bool) -> Option<Seq<SpecValue>> {
    match v {
        SpecValue::Array(items) => Some(items),
        SpecValue::ObjectArray(items) => if objects {
            Some(items)
        } else {
            None
        },
        _ => None,
    }
}

/// An element of a `u16` array.
pub open spec fn elem_u16(v: SpecValue) -> Option<u16> {
    match v {
        SpecValue::Short(x) => Some(x as u16),
        SpecValue::Int(x) => Some(x as u16),
        SpecValue::Byte(x) => Some(x as u16),
        _ => None,
    }
}

/// An element of an `i16` array.
pub open spec fn elem_i16(v: SpecValue) -> Option<i16> {
    match v {
        SpecValue::Short(x) => Some(x),
        SpecValue::Int(x) => Some(x as i16),
        SpecValue::Byte(x) => Some(x as i16),
        _ => None,
    }
}

/// An array whose every element converts by `f`, converted.
pub open spec fn convert_all<T>(items: Seq<SpecValue>, f: spec_fn(SpecValue) -> Option<T>) -> Option<Seq<T>> {
    if forall|i: int| 0 <= i < items.len() ==> (#[trigger] f(items[i])) is Some {
        Some(Seq::new(items.len(), |i: int| f(items[i])->0))
    } else {
        None
    }
}

pub open spec fn as_u16_vec(v: SpecValue) -> Option<Seq<u16>> {
    match array_items(v, false) {
        Some(items) => convert_all(items, |x: SpecValue| elem_u16(x)),
        None => None,
    }
}

pub open spec fn as_i16_vec(v: SpecValue) -> Option<Seq<i16>> {
    match array_items(v, false) {
        Some(items) => convert_all(items, |x: SpecValue| elem_i16(x)),
        None => None,
    }
}

pub open spec fn as_u8_vec(v: SpecValue) -> Option<Seq<u8>> {
    match array_items(v, false) {
        Some(items) => convert_all(items, |x: SpecValue| as_u8(x)),
        None => None,
    }
}

pub open spec fn as_string_vec(v: SpecValue) -> Option<Seq<Seq<char>>> {
    match array_items(v, true) {
        Some(items) => convert_all(items, |x: SpecValue| as_string(x)),
        None => None,
    }
}

/// Conversion of a decoded value into a Rust value.
pub trait FromPhotonValue: Sized {
    /// Whether `r` is what `from_photon` gives for a value whose model is `v`.
    spec fn from_photon_spec(v: SpecValue, r: Option<Self>) -> bool;

    fn from_photon(value: &PhotonValue) -> (r: Option<Self>)
        ensures
            Self::from_photon_spec(value.model(), r),
    ;
}

impl FromPhotonValue for bool {
    open spec fn from_photon_spec(v: SpecValue, r: Option<Self>) -> bool {
        r == as_bool(v)
    }

    fn from_photon(value: &PhotonValue) -> (r: Option<Self>) {
        match value {
            PhotonValue::Bool(b) => Some(*b),
            _ => None,
        }
    }
}

impl FromPhotonValue for u8 {
    open spec fn from_photon_spec(v: SpecValue, r: Option<Self>) -> bool {
        r == as_u8(v)
    }

    fn from_photon(value: &PhotonValue) -> (r: Option<Self>) {
        match value {
            PhotonValue::Byte(b) => Some(*b),
            _ => None,
        }
    }
}

impl FromPhotonValue for i16 {
    open spec fn from_photon_spec(v: SpecValue, r: Option<Self>) -> bool {
        r == as_i16(v)
    }

    fn from_photon(value: &PhotonValue) -> (r: Option<Self>) {
        match value {
            PhotonValue::Short(v) => Some(*v),
            _ => None,
        }
    }
}

impl FromPhotonValue for i32 {
    open spec fn from_photon_spec(v: SpecValue, r: Option<Self>) -> bool {
        r == as_i32(v)
    }

    fn from_photon(value: &PhotonValue) -> (r: Option<Self>) {
        match value {
            PhotonValue::Int(v) => Some(*v),
            PhotonValue::Short(v) => Some(*v as i32),
            PhotonValue::Byte(v) => Some(*v as i32),
            _ => None,
        }
    }
}

impl FromPhotonValue for u32 {
    open spec fn from_photon_spec(v: SpecValue, r: Option<Self>) -> bool {
        r == as_u32(v)
    }

    fn from_photon(value: &PhotonValue) -> (r: Option<Self>) {
        match value {
            PhotonValue::Long(v) => Some(*v as u32),
            PhotonValue::Int(v) => Some(*v as u32),
            PhotonValue::Short(v) => Some(*v as u32),
            PhotonValue::Byte(v) => Some(*v as u32),
            _ => None,
        }
    }
}

impl FromPhotonValue for i64 {
    open spec fn from_photon_spec(v: SpecValue, r: Option<Self>) -> bool {
        r == as_i64(v)
    }

    fn from_photon(value: &PhotonValue) -> (r: Option<Self>) {
        match value {
            PhotonValue::Long(v) => Some(*v),
            PhotonValue::Int(v) => Some(*v as i64),
            PhotonValue::Short(v) => Some(*v as i64),
            PhotonValue::Byte(v) => Some(*v as i64),
            _ => None,
        }
    }
}

impl FromPhotonValue for u64 {
    open spec fn from_photon_spec(v: SpecValue, r: Option<Self>) -> bool {
        r == as_u64(v)
    }

    fn from_photon(value: &PhotonValue) -> (r: Option<Self>) {
        match value {
            PhotonValue::Long(v) => Some(*v as u64),
            PhotonValue::Int(v) => Some(*v as u64),
            PhotonValue::Short(v) => Some(*v as u64),
            PhotonValue::Byte(v) => Some(*v as u64),
            _ => None,
        }
    }
}

impl FromPhotonValue for FloatBits {
    open spec fn from_photon_spec(v: SpecValue, r: Option<Self>) -> bool {
        r == as_float(v)
    }

    fn from_photon(value: &PhotonValue) -> (r: Option<Self>) {
        match value {
            PhotonValue::Float(v) => Some(FloatBits::Single(*v)),
            PhotonValue::Double(v) => Some(FloatBits::Double(*v)),
            _ => None,
        }
    }
}

impl FromPhotonValue for String {
    open spec fn from_photon_spec(v: SpecValue, r: Option<Self>) -> bool {
        match r {
            Some(s) => as_string(v) == Some(s@),
            None => as_string(v) is None,
        }
    }

    fn from_photon(value: &PhotonValue) -> (r: Option<Self>) {
        match value {
            PhotonValue::String(s) => Some(s.clone()),
            _ => None,
        }
    }
}

/// The texts of strings.
pub open spec fn strings_model(v: Seq<String>) -> Seq<Seq<char>> {
    Seq::new(v.len(), |i: int| v[i]@)
}

impl FromPhotonValue for Vec<String> {
    open spec fn from_photon_spec(v: SpecValue, r: Option<Self>) -> bool {
        match r {
            Some(out) => as_string_vec(v) == Some(strings_model(out@)),
            None => as_string_vec(v) is None,
        }
    }

    fn from_photon(value: &PhotonValue) -> (r: Option<Self>) {
        match value {
            PhotonValue::Array(arr) => {
                proof { crate::deserializer::lemma_array_models(*arr); }
                collect_strings(arr)
            },
            PhotonValue::ObjectArray(arr) => {
                proof { crate::deserializer::lemma_array_models(*arr); }
                collect_strings(arr)
            },
            _ => None,
        }
    }
}

/// The texts of all the values, when all are strings.
pub(crate) fn collect_strings(arr: &Vec<PhotonValue>) -> (r: Option<Vec<String>>)
    ensures
        match r {
            Some(out) => convert_all(crate::deserializer::values_model(arr@), |x: SpecValue| as_string(x))
                == Some(strings_model(out@)),
            None => convert_all(crate::deserializer::values_model(arr@), |x: SpecValue| as_string(x)) is None,
        },
{
    let ghost items = crate::deserializer::values_model(arr@);
    let ghost f = |x: SpecValue| as_string(x);
    let mut out: Vec<String> = Vec::new();
    let mut i: usize = 0;
    while i < arr.len()
        invariant
            i <= arr@.len(),
            items == crate::deserializer::values_model(arr@),
            f == (|x: SpecValue| as_string(x)),
            out@.len() == i,
            forall|j: int| 0 <= j < i ==> #[trigger] f(items[j]) == Some(out@[j]@),
        decreases arr@.len() - i,
    {
        match &arr[i] {
            PhotonValue::String(s) => {
                out.push(s.clone());
            },
            _ => {
                assert(f(items[i as int]) is None);
                return None;
            },
        }
        i = i + 1;
    }
    assert(Seq::new(items.len(), |j: int| f(items[j])->0) =~= strings_model(out@));
    Some(out)
}

impl FromPhotonValue for Vec<u8> {
    open spec fn from_photon_spec(v: SpecValue, r: Option<Self>) -> bool {
        match r {
            Some(out) => as_u8_vec(v) == Some(out@),
            None => as_u8_vec(v) is None,
        }
    }

    fn from_photon(value: &PhotonValue) -> (r: Option<Self>) {
        match value {
            PhotonValue::Array(arr) => {
                proof { crate::deserializer::lemma_array_models(*arr); }
                collect_bytes(arr)
            },
            _ => None,
        }
    }
}

impl FromPhotonValue for Vec<u16> {
    open spec fn from_photon_spec(v: SpecValue, r: Option<Self>) -> bool {
        match r {
            Some(out) => as_u16_vec(v) == Some(out@),
            None => as_u16_vec(v) is None,
        }
    }

    fn from_photon(value: &PhotonValue) -> (r: Option<Self>) {
        match value {
            PhotonValue::Array(arr) => {
                proof { crate::deserializer::lemma_array_models(*arr); }
                collect_u16s(arr)
            },
            _ => None,
        }
    }
}

impl FromPhotonValue for Vec<i16> {
    open spec fn from_photon_spec(v: SpecValue, r: Option<Self>) -> bool {
        match r {
            Some(out) => as_i16_vec(v) == Some(out@),
            None => as_i16_vec(v) is None,
        }
    }

    fn from_photon(value: &PhotonValue) -> (r: Option<Self>) {
        match value {
            PhotonValue::Array(arr) => {
                proof { crate::deserializer::lemma_array_models(*arr); }
                collect_i16s(arr)
            },
            _ => None,
        }
    }
}

/// The u8 elements of all the values, when all convert.
fn collect_bytes(arr: &Vec<PhotonValue>) -> (r: Option<Vec<u8>>)
    ensures
        match r {
            Some(out) => convert_all(crate::deserializer::values_model(arr@), |x: SpecValue| as_u8(x))
                == Some(out@),
            None => convert_all(crate::deserializer::values_model(arr@), |x: SpecValue| as_u8(x)) is None,
        },
{
    let ghost items = crate::deserializer::values_model(arr@);
    let ghost f = |x: SpecValue| as_u8(x);
    let mut out: Vec<u8> = Vec::new();
    let mut i: usize = 0;
    while i < arr.len()
        invariant
            i <= arr@.len(),
            items == crate::deserializer::values_model(arr@),
            f == (|x: SpecValue| as_u8(x)),
            out@.len() == i,
            forall|j: int| 0 <= j < i ==> #[trigger] f(items[j]) == Some(out@[j]),
        decreases arr@.len() - i,
    {
        match &arr[i] {
            PhotonValue::Byte(b) => out.push(*b),
            _ => {
                assert(f(items[i as int]) is None);
                return None;
            },
        }
        i = i + 1;
    }
    assert(Seq::new(items.len(), |j: int| f(items[j])->0) =~= out@);
    Some(out)
}

/// The u16 elements of all the values, when all convert.
fn collect_u16s(arr: &Vec<PhotonValue>) -> (r: Option<Vec<u16>>)
    ensures
        match r {
            Some(out) => convert_all(crate::deserializer::values_model(arr@), |x: SpecValue| elem_u16(x))
                == Some(out@),
            None => convert_all(crate::deserializer::values_model(arr@), |x: SpecValue| elem_u16(x)) is None,
        },
{
    let ghost items = crate::deserializer::values_model(arr@);
    let ghost f = |x: SpecValue| elem_u16(x);
    let mut out: Vec<u16> = Vec::new();
    let mut i: usize = 0;
    while i < arr.len()
        invariant
            i <= arr@.len(),
            items == crate::deserializer::values_model(arr@),
            f == (|x: SpecValue| elem_u16(x)),
            out@.len() == i,
            forall|j: int| 0 <= j < i ==> #[trigger] f(items[j]) == Some(out@[j]),
        decreases arr@.len() - i,
    {
        match &arr[i] {
            PhotonValue::Short(v) => out.push(*v as u16),
            PhotonValue::Int(v) => out.push(*v as u16),
            PhotonValue::Byte(v) => out.push(*v as u16),
            _ => {
                assert(f(items[i as int]) is None);
                return None;
            },
        }
        i = i + 1;
    }
    assert(Seq::new(items.len(), |j: int| f(items[j])->0) =~= out@);
    Some(out)
}

/// The i16 elements of all the values, when all convert.
fn collect_i16s(arr: &Vec<PhotonValue>) -> (r: Option<Vec<i16>>)
    ensures
        match r {
            Some(out) => convert_all(crate::deserializer::values_model(arr@), |x: SpecValue| elem_i16(x))
                == Some(out@),
            None => convert_all(crate::deserializer::values_model(arr@), |x: SpecValue| elem_i16(x)) is None,
        },
{
    let ghost items = crate::deserializer::values_model(arr@);
    let ghost f = |x: SpecValue| elem_i16(x);
    let mut out: Vec<i16> = Vec::new();
    let mut i: usize = 0;
    while i < arr.len()
        invariant
            i <= arr@.len(),
            items == crate::deserializer::values_model(arr@),
            f == (|x: SpecValue| elem_i16(x)),
            out@.len() == i,
            forall|j: int| 0 <= j < i ==> #[trigger] f(items[j]) == Some(out@[j]),
        decreases arr@.len() - i,
    {
        match &arr[i] {
            PhotonValue::Short(v) => out.push(*v),
            PhotonValue::Int(v) => out.push(*v as i16),
            PhotonValue::Byte(v) => out.push(*v as i16),
            _ => {
                assert(f(items[i as int]) is None);
                return None;
            },
        }
        i = i + 1;
    }
    assert(Seq::new(items.len(), |j: int| f(items[j])->0) =~= out@);
    Some(out)
}

/// Reads parameter `key` as a `T`; `None` when it is absent or of another kind.
pub fn get_param<T: FromPhotonValue>(params: &HashMap<u8, PhotonValue>, key: u8) -> (r: Option<T>)
    ensures
        if params_model(params@).contains_key(key) {
            T::from_photon_spec(params_model(params@)[key], r)
        } else {
            r is None
        },
{
    match params.get(&key) {
        Some(v) => T::from_photon(v),
        None => None,
    }
}

/// Numbers convert by value: a small non-negative number of any integer
/// kind becomes that number in every integer type that accepts its kind
/// (`u32`, `u64` and `i64` take every integer kind, `i32` bytes, shorts and
/// ints, `i16` shorts only, `u8` bytes only); negative numbers wrap into
/// the unsigned types; and values of other kinds convert to no number.
pub proof fn lemma_numbers_convert_by_value(n: u8, s: Seq<char>, b: bool)
    requires
        n < 128,
    ensures
        as_u32(SpecValue::Byte(n)) == Some(n as u32) && as_u32(SpecValue::Short(n as i16)) == Some(n as u32)
            && as_u32(SpecValue::Int(n as i32)) == Some(n as u32) && as_u32(SpecValue::Long(n as i64)) == Some(
            n as u32,
        ),
        as_u64(SpecValue::Byte(n)) == Some(n as u64) && as_u64(SpecValue::Short(n as i16)) == Some(n as u64)
            && as_u64(SpecValue::Int(n as i32)) == Some(n as u64) && as_u64(SpecValue::Long(n as i64)) == Some(
            n as u64,
        ),
        as_i64(SpecValue::Byte(n)) == Some(n as i64) && as_i64(SpecValue::Short(n as i16)) == Some(n as i64)
            && as_i64(SpecValue::Int(n as i32)) == Some(n as i64) && as_i64(SpecValue::Long(n as i64)) == Some(
            n as i64,
        ),
        as_i32(SpecValue::Byte(n)) == Some(n as i32) && as_i32(SpecValue::Short(n as i16)) == Some(n as i32)
            && as_i32(SpecValue::Int(n as i32)) == Some(n as i32) && as_i32(SpecValue::Long(n as i64)) is None,
        as_i16(SpecValue::Short(n as i16)) == Some(n as i16) && as_i16(SpecValue::Int(n as i32)) is None
            && as_i16(SpecValue::Byte(n)) is None,
        as_u8(SpecValue::Byte(n)) == Some(n) && as_u8(SpecValue::Short(n as i16)) is None,
        as_u32(SpecValue::Int(-1i32)) == Some(u32::MAX) && as_u64(SpecValue::Long(-1i64)) == Some(u64::MAX)
            && as_u32(SpecValue::Short(-1i16)) == Some(u32::MAX),
        as_u32(SpecValue::String(s)) is None && as_u64(SpecValue::Bool(b)) is None && as_i32(
            SpecValue::Float(0),
        ) is None,
        as_string(SpecValue::String(s)) == Some(s) && as_string(SpecValue::Byte(n)) is None,
        as_bool(SpecValue::Bool(b)) == Some(b) && as_bool(SpecValue::Byte(n)) is None,
{
    assert(((-1i32) as u32) == u32::MAX && ((-1i64) as u64) == u64::MAX && ((-1i16) as u32) == u32::MAX)
        by (bit_vector);
}

} // verus!
