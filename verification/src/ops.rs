//! Parameter access for operation decoding.
use vstd::prelude::*;
use std::collections::HashMap;
use crate::convert::{as_string, collect_strings, convert_all, strings_model};
use crate::deserializer::{lemma_array_models, params_model, PhotonValue};
use crate::wire::SpecValue;

pub use crate::convert::{get_param, FromPhotonValue};
pub use crate::structs::{
    EventCharacterStats, EventFullAchievementInfo, EventRedZoneWorldMapEvent,
    OperationAuctionGetItemAverageStats, OperationAuctionGetItemAverageStatsResponse,
    OperationAuctionGetOffers, OperationAuctionGetOffersResponse,
    OperationAuctionGetRequestsResponse, OperationGetClusterMapInfo,
    OperationGetClusterMapInfoResponse, OperationGetGameServerByCluster,
    OperationGetMailInfosResponse, OperationGoldMarketGetAverageInfo,
    OperationGoldMarketGetAverageInfoResponse, OperationJoinResponse, OperationReadMailResponse,
    OperationRealEstateBidOnAuction, OperationRealEstateBidOnAuctionResponse,
    OperationRealEstateGetAuctionData, OperationRealEstateGetAuctionDataResponse,
};

verus! {

broadcast use vstd::std_specs::hash::group_hash_axioms;

/// The texts of parameter `k` when it is an array (not an object array) of
/// strings only.
pub open spec fn string_array_param(m: Map<u8, SpecValue>, k: u8) -> Option<Seq<Seq<char>>> {
    if m.contains_key(k) {
        match m[k] {
            SpecValue::Array(items) => convert_all(items, |x: SpecValue| as_string(x)),
            _ => None,
        }
    } else {
        None
    }
}

/// Reads parameter `key` as an array of strings.
pub fn get_string_array(params: &HashMap<u8, PhotonValue>, key: u8) -> (r: Option<Vec<String>>)
    ensures
        match r {
            Some(out) => string_array_param(params_model(params@), key) == Some(strings_model(out@)),
            None => string_array_param(params_model(params@), key) is None,
        },
{
    match params.get(&key) {
        Some(PhotonValue::Array(arr)) => {
            proof { lemma_array_models(*arr); }
            collect_strings(arr)
        },
        _ => None,
    }
}

} // verus!
