//! What the packet inspector makes of each parsed message before decoding it.
use vstd::prelude::*;
use std::collections::HashMap;
use crate::decoder::{
    decode_event, decode_request, decode_response, event_decoded, request_decoded, response_decoded,
    AlbionOperation, EventCodes, OperationCodes,
};
use crate::deserializer::{lemma_array_models, params_model, PhotonValue};
use crate::parser::{all_string_values, all_strings};
use crate::wire::SpecValue;

verus! {

broadcast use vstd::std_specs::hash::group_hash_axioms;

/// The parameter table with `v` under key `k` when `k` is absent.
pub open spec fn with_default(m: Map<u8, SpecValue>, k: u8, v: SpecValue) -> Map<u8, SpecValue> {
    if m.contains_key(k) {
        m
    } else {
        m.insert(k, v)
    }
}

/// A response whose parameter 0 is an array of strings only is market data:
/// it is decoded as an auction offers response whatever its code.
pub open spec fn market_data_code(m: Map<u8, SpecValue>, codes: OperationCodes) -> Map<u8, SpecValue> {
    if m.contains_key(0) && m[0] is Array && all_strings(m[0]->Array_0) {
        m.insert(253, SpecValue::Short(codes.auction_get_offers as i16))
    } else {
        m
    }
}

/// Decodes the messages of a capture with the operation and event codes of
/// the running game version.
#[derive(Debug, Clone, Copy)]
pub struct AlbionListener {
    pub operations: OperationCodes,
    pub events: EventCodes,
}

/// Puts `v` under key `k` when `k` is absent.
fn insert_default(params: &mut HashMap<u8, PhotonValue>, k: u8, v: PhotonValue)
    ensures
        params_model(final(params)@) == with_default(params_model(old(params)@), k, v.model()),
{
    if !params.contains_key(&k) {
        let ghost vm = v.model();
        params.insert(k, v);
        assert(params_model(params@) =~= params_model(old(params)@).insert(k, vm));
    } else {
        assert(params_model(params@) =~= params_model(old(params)@));
    }
}

impl AlbionListener {
    /// A request: its operation code stands in for parameter 253 when that
    /// is absent.
    pub fn on_request(&self, operation_code: u8, params: HashMap<u8, PhotonValue>) -> (r: Option<AlbionOperation>)
        ensures
            request_decoded(
                with_default(params_model(params@), 253, SpecValue::Short(operation_code as i16)),
                self.operations,
                r,
            ),
    {
        let mut params = params;
        insert_default(&mut params, 253, PhotonValue::Short(operation_code as i16));
        decode_request(params, &self.operations)
    }

    /// A response: its operation code stands in for parameter 253 when that
    /// is absent, and market data is decoded as auction offers.
    pub fn on_response(
        &self,
        operation_code: u8,
        return_code: i16,
        debug_message: String,
        params: HashMap<u8, PhotonValue>,
    ) -> (r: Option<AlbionOperation>)
        ensures
            response_decoded(
                market_data_code(
                    with_default(params_model(params@), 253, SpecValue::Short(operation_code as i16)),
                    self.operations,
                ),
                self.operations,
                r,
            ),
    {
        let mut params = params;
        insert_default(&mut params, 253, PhotonValue::Short(operation_code as i16));
        let ghost m = params_model(params@);
        let market = match params.get(&0) {
            Some(PhotonValue::Array(arr)) => {
                proof { lemma_array_models(*arr); }
                all_string_values(arr)
            },
            _ => false,
        };
        if market {
            let code = PhotonValue::Short(self.operations.auction_get_offers as i16);
            let ghost cm = code.model();
            params.insert(253, code);
            assert(params_model(params@) =~= m.insert(253, cm));
        }
        assert(params_model(params@) == market_data_code(m, self.operations));
        decode_response(params, return_code, debug_message, &self.operations)
    }

    /// An event: its code stands in for parameter 252 when that is absent.
    pub fn on_event(&self, code: u8, params: HashMap<u8, PhotonValue>) -> (r: Option<AlbionOperation>)
        ensures
            event_decoded(
                with_default(params_model(params@), 252, SpecValue::Short(code as i16)),
                self.events,
                r,
            ),
    {
        let mut params = params;
        insert_default(&mut params, 252, PhotonValue::Short(code as i16));
        decode_event(params, &self.events)
    }
}

/// A message's own code fills parameter `k` only when the table lacks it;
/// every other parameter stays as it was.
pub proof fn lemma_default_fills_only_a_missing_code(m: Map<u8, SpecValue>, k: u8, v: SpecValue, j: u8)
    ensures
        m.contains_key(k) ==> with_default(m, k, v) == m,
        !m.contains_key(k) ==> with_default(m, k, v).contains_key(k) && with_default(m, k, v)[k] == v,
        j != k ==> (with_default(m, k, v).contains_key(j) == m.contains_key(j) && (m.contains_key(j)
            ==> with_default(m, k, v)[j] == m[j])),
{
}

/// Market data (parameter 0 an array of strings only) is given the auction
/// offers code in parameter 253, whatever code it had; any other table is
/// left as it is.
pub proof fn lemma_market_data_code(m: Map<u8, SpecValue>, codes: OperationCodes, items: Seq<SpecValue>)
    ensures
        m.contains_key(0) && m[0] == SpecValue::Array(items) && (forall|i: int|
            0 <= i < items.len() ==> #[trigger] items[i] is String) ==> market_data_code(m, codes)
            == m.insert(253, SpecValue::Short(codes.auction_get_offers as i16)),
        !m.contains_key(0) ==> market_data_code(m, codes) == m,
        m.contains_key(0) && !(m[0] is Array) ==> market_data_code(m, codes) == m,
        m.contains_key(0) && m[0] == SpecValue::Array(items) && (exists|i: int|
            0 <= i < items.len() && !(#[trigger] items[i] is String)) ==> market_data_code(m, codes) == m,
{
}

} // verus!
