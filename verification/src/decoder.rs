//! Dispatch of parameter tables to the Albion Online operations and events.
use vstd::prelude::*;
use std::collections::HashMap;
use crate::deserializer::{params_model, PhotonValue};
use crate::structs::{
    EventCharacterStats,
    EventFullAchievementInfo,
    EventRedZoneWorldMapEvent,
    OperationAuctionGetItemAverageStats,
    OperationAuctionGetItemAverageStatsResponse,
    OperationAuctionGetOffers,
    OperationAuctionGetOffersResponse,
    OperationAuctionGetRequestsResponse,
    OperationGetClusterMapInfo,
    OperationGetClusterMapInfoResponse,
    OperationGetGameServerByCluster,
    OperationGetMailInfosResponse,
    OperationGoldMarketGetAverageInfo,
    OperationGoldMarketGetAverageInfoResponse,
    OperationJoinResponse,
    OperationReadMailResponse,
    OperationRealEstateBidOnAuction,
    OperationRealEstateBidOnAuctionResponse,
    OperationRealEstateGetAuctionData,
    OperationRealEstateGetAuctionDataResponse,
};
use crate::utils::{normalize_event_code, normalize_operation_code, normalized, MAX_EVCODE, MAX_OPCODE};
use crate::wire::SpecValue;

verus! {

broadcast use vstd::std_specs::hash::group_hash_axioms;

/// The operation codes the decoder recognises.  The client numbers its
/// operations anew between game versions, so the caller supplies them.
#[derive(Debug, Clone, Copy)]
pub struct OperationCodes {
    pub auction_get_item_average_stats: u16,
    pub auction_get_offers: u16,
    pub auction_get_requests: u16,
    pub get_cluster_map_info: u16,
    pub get_game_server_by_cluster: u16,
    pub get_mail_infos: u16,
    pub gold_market_get_average_info: u16,
    pub join: u16,
    pub read_mail: u16,
    pub real_estate_bid_on_auction: u16,
    pub real_estate_get_auction_data: u16,
}

/// The event codes the decoder recognises, supplied by the caller.
#[derive(Debug, Clone, Copy)]
pub struct EventCodes {
    pub character_stats: u16,
    pub red_zone_world_map_event: u16,
    pub full_achievement_info: u16,
}

/// A decoded Albion Online operation or event.
#[derive(Debug, Clone)]
pub enum AlbionOperation {
    RequestGetGameServerByCluster(OperationGetGameServerByCluster),
    RequestAuctionGetOffers(OperationAuctionGetOffers),
    RequestAuctionGetItemAverageStats(OperationAuctionGetItemAverageStats),
    RequestGetClusterMapInfo(OperationGetClusterMapInfo),
    RequestGoldMarketGetAverageInfo(OperationGoldMarketGetAverageInfo),
    RequestRealEstateGetAuctionData(OperationRealEstateGetAuctionData),
    RequestRealEstateBidOnAuction(OperationRealEstateBidOnAuction),

    ResponseJoin(OperationJoinResponse),
    ResponseAuctionGetOffers(OperationAuctionGetOffersResponse),
    ResponseAuctionGetRequests(OperationAuctionGetRequestsResponse),
    ResponseAuctionGetItemAverageStats(OperationAuctionGetItemAverageStatsResponse),
    ResponseGetMailInfos(OperationGetMailInfosResponse),
    ResponseReadMail(OperationReadMailResponse),
    ResponseGetClusterMapInfo(OperationGetClusterMapInfoResponse),
    ResponseGoldMarketGetAverageInfo(OperationGoldMarketGetAverageInfoResponse),
    ResponseRealEstateGetAuctionData(OperationRealEstateGetAuctionDataResponse),
    ResponseRealEstateBidOnAuction(OperationRealEstateBidOnAuctionResponse),

    EventCharacterStats(EventCharacterStats),
    EventRedZoneWorldMapEvent(EventRedZoneWorldMapEvent),
    EventFullAchievementInfo(EventFullAchievementInfo),

    UnknownRequest(u8, HashMap<u8, PhotonValue>),
    UnknownResponse(u8, i16, String, HashMap<u8, PhotonValue>),
    UnknownEvent(u8, HashMap<u8, PhotonValue>),
}

/// A code read from a numeric value, truncated to 16 bits.
pub open spec fn code_of(v: SpecValue) -> Option<u16> {
    match v {
        SpecValue::Short(x) => Some(x as u16),
        SpecValue::Int(x) => Some(x as u16),
        SpecValue::Long(x) => Some(x as u16),
        SpecValue::Byte(x) => Some(x as u16),
        _ => None,
    }
}

/// The normalized operation code held in parameter 253.
pub open spec fn operation_code(m: Map<u8, SpecValue>) -> Option<u16> {
    if m.contains_key(253) {
        match code_of(m[253]) {
            Some(c) => Some(normalized(c, MAX_OPCODE)),
            None => None,
        }
    } else {
        None
    }
}

/// The normalized event code held in parameter 252.
pub open spec fn event_code(m: Map<u8, SpecValue>) -> Option<u16> {
    if m.contains_key(252) {
        match code_of(m[252]) {
            Some(c) => Some(normalized(c, MAX_EVCODE)),
            None => None,
        }
    } else {
        None
    }
}

fn to_u16(v: &PhotonValue) -> (r: Option<u16>)
    ensures
        r == code_of(v.model()),
{
    match v {
        PhotonValue::Short(v) => Some(*v as u16),
        PhotonValue::Int(v) => Some(*v as u16),
        PhotonValue::Long(v) => Some(*v as u16),
        PhotonValue::Byte(v) => Some(*v as u16),
        _ => None,
    }
}

fn resolve_operation_code(params: &HashMap<u8, PhotonValue>) -> (r: Option<u16>)
    ensures
        r == operation_code(params_model(params@)),
{
    let v = match params.get(&253) {
        Some(v) => v,
        None => return None,
    };
    let code = match to_u16(v) {
        Some(c) => c,
        None => return None,
    };
    Some(normalize_operation_code(code))
}

fn resolve_event_code(params: &HashMap<u8, PhotonValue>) -> (r: Option<u16>)
    ensures
        r == event_code(params_model(params@)),
{
    let v = match params.get(&252) {
        Some(v) => v,
        None => return None,
    };
    let code = match to_u16(v) {
        Some(c) => c,
        None => return None,
    };
    Some(normalize_event_code(code))
}

/// What `decode_request` gives for the parameter table `m`.
pub open spec fn request_decoded(m: Map<u8, SpecValue>, codes: OperationCodes, r: Option<AlbionOperation>) -> bool {
    match operation_code(m) {
        None => r is None,
        Some(c) => {
        if c == codes.get_game_server_by_cluster {
            r matches Some(AlbionOperation::RequestGetGameServerByCluster(x)) && x.decoded_from(m)
        } else if c == codes.auction_get_offers {
            r matches Some(AlbionOperation::RequestAuctionGetOffers(x)) && x.decoded_from(m)
        } else if c == codes.auction_get_item_average_stats {
            r matches Some(AlbionOperation::RequestAuctionGetItemAverageStats(x)) && x.decoded_from(m)
        } else if c == codes.get_cluster_map_info {
            r matches Some(AlbionOperation::RequestGetClusterMapInfo(x)) && x.decoded_from(m)
        } else if c == codes.gold_market_get_average_info {
            r matches Some(AlbionOperation::RequestGoldMarketGetAverageInfo(x)) && x.decoded_from(m)
        } else if c == codes.real_estate_get_auction_data {
            r matches Some(AlbionOperation::RequestRealEstateGetAuctionData(x)) && x.decoded_from(m)
        } else if c == codes.real_estate_bid_on_auction {
            r matches Some(AlbionOperation::RequestRealEstateBidOnAuction(x)) && x.decoded_from(m)
        } else {
            r is None
        }
        },
    }
}

/// What `decode_response` gives for the parameter table `m`.
pub open spec fn response_decoded(m: Map<u8, SpecValue>, codes: OperationCodes, r: Option<AlbionOperation>) -> bool {
    match operation_code(m) {
        None => r is None,
        Some(c) => {
        if c == codes.join {
            r matches Some(AlbionOperation::ResponseJoin(x)) && x.decoded_from(m)
        } else if c == codes.auction_get_offers {
            r matches Some(AlbionOperation::ResponseAuctionGetOffers(x)) && x.decoded_from(m)
        } else if c == codes.auction_get_requests {
            r matches Some(AlbionOperation::ResponseAuctionGetRequests(x)) && x.decoded_from(m)
        } else if c == codes.auction_get_item_average_stats {
            r matches Some(AlbionOperation::ResponseAuctionGetItemAverageStats(x)) && x.decoded_from(m)
        } else if c == codes.get_mail_infos {
            r matches Some(AlbionOperation::ResponseGetMailInfos(x)) && x.decoded_from(m)
        } else if c == codes.read_mail {
            r matches Some(AlbionOperation::ResponseReadMail(x)) && x.decoded_from(m)
        } else if c == codes.get_cluster_map_info {
            r matches Some(AlbionOperation::ResponseGetClusterMapInfo(x)) && x.decoded_from(m)
        } else if c == codes.gold_market_get_average_info {
            r matches Some(AlbionOperation::ResponseGoldMarketGetAverageInfo(x)) && x.decoded_from(m)
        } else if c == codes.real_estate_get_auction_data {
            r matches Some(AlbionOperation::ResponseRealEstateGetAuctionData(x)) && x.decoded_from(m)
        } else if c == codes.real_estate_bid_on_auction {
            r matches Some(AlbionOperation::ResponseRealEstateBidOnAuction(x)) && x.decoded_from(m)
        } else {
            r is None
        }
        },
    }
}

/// What `decode_event` gives for the parameter table `m`.
pub open spec fn event_decoded(m: Map<u8, SpecValue>, codes: EventCodes, r: Option<AlbionOperation>) -> bool {
    match event_code(m) {
        None => r is None,
        Some(c) => {
        if c == codes.character_stats {
            r matches Some(AlbionOperation::EventCharacterStats(x)) && x.decoded_from(m)
        } else if c == codes.red_zone_world_map_event {
            r matches Some(AlbionOperation::EventRedZoneWorldMapEvent(x)) && x.decoded_from(m)
        } else if c == codes.full_achievement_info {
            r matches Some(AlbionOperation::EventFullAchievementInfo(x)) && x.decoded_from(m)
        } else {
            r is None
        }
        },
    }
}

/// Decodes a request by its operation code (parameter 253).
pub fn decode_request(params: HashMap<u8, PhotonValue>, codes: &OperationCodes) -> (r: Option<AlbionOperation>)
    ensures
        request_decoded(params_model(params@), *codes, r),
{
    let code = match resolve_operation_code(&params) {
        Some(c) => c,
        None => return None,
    };
    if code == codes.get_game_server_by_cluster {
        match OperationGetGameServerByCluster::decode(&params) {
            Some(x) => Some(AlbionOperation::RequestGetGameServerByCluster(x)),
            None => None,
        }
    } else if code == codes.auction_get_offers {
        match OperationAuctionGetOffers::decode(&params) {
            Some(x) => Some(AlbionOperation::RequestAuctionGetOffers(x)),
            None => None,
        }
    } else if code == codes.auction_get_item_average_stats {
        match OperationAuctionGetItemAverageStats::decode(&params) {
            Some(x) => Some(AlbionOperation::RequestAuctionGetItemAverageStats(x)),
            None => None,
        }
    } else if code == codes.get_cluster_map_info {
        match OperationGetClusterMapInfo::decode(&params) {
            Some(x) => Some(AlbionOperation::RequestGetClusterMapInfo(x)),
            None => None,
        }
    } else if code == codes.gold_market_get_average_info {
        match OperationGoldMarketGetAverageInfo::decode(&params) {
            Some(x) => Some(AlbionOperation::RequestGoldMarketGetAverageInfo(x)),
            None => None,
        }
    } else if code == codes.real_estate_get_auction_data {
        match OperationRealEstateGetAuctionData::decode(&params) {
            Some(x) => Some(AlbionOperation::RequestRealEstateGetAuctionData(x)),
            None => None,
        }
    } else if code == codes.real_estate_bid_on_auction {
        match OperationRealEstateBidOnAuction::decode(&params) {
            Some(x) => Some(AlbionOperation::RequestRealEstateBidOnAuction(x)),
            None => None,
        }
    } else {
        None
    }
}

/// Decodes a response by its operation code (parameter 253); the return
/// code and debug message do not take part.
pub fn decode_response(
    params: HashMap<u8, PhotonValue>,
    _return_code: i16,
    _debug_message: String,
    codes: &OperationCodes,
) -> (r: Option<AlbionOperation>)
    ensures
        response_decoded(params_model(params@), *codes, r),
{
    let code = match resolve_operation_code(&params) {
        Some(c) => c,
        None => return None,
    };
    if code == codes.join {
        match OperationJoinResponse::decode(&params) {
            Some(x) => Some(AlbionOperation::ResponseJoin(x)),
            None => None,
        }
    } else if code == codes.auction_get_offers {
        match OperationAuctionGetOffersResponse::decode(&params) {
            Some(x) => Some(AlbionOperation::ResponseAuctionGetOffers(x)),
            None => None,
        }
    } else if code == codes.auction_get_requests {
        match OperationAuctionGetRequestsResponse::decode(&params) {
            Some(x) => Some(AlbionOperation::ResponseAuctionGetRequests(x)),
            None => None,
        }
    } else if code == codes.auction_get_item_average_stats {
        match OperationAuctionGetItemAverageStatsResponse::decode(&params) {
            Some(x) => Some(AlbionOperation::ResponseAuctionGetItemAverageStats(x)),
            None => None,
        }
    } else if code == codes.get_mail_infos {
        match OperationGetMailInfosResponse::decode(&params) {
            Some(x) => Some(AlbionOperation::ResponseGetMailInfos(x)),
            None => None,
        }
    } else if code == codes.read_mail {
        match OperationReadMailResponse::decode(&params) {
            Some(x) => Some(AlbionOperation::ResponseReadMail(x)),
            None => None,
        }
    } else if code == codes.get_cluster_map_info {
        match OperationGetClusterMapInfoResponse::decode(&params) {
            Some(x) => Some(AlbionOperation::ResponseGetClusterMapInfo(x)),
            None => None,
        }
    } else if code == codes.gold_market_get_average_info {
        match OperationGoldMarketGetAverageInfoResponse::decode(&params) {
            Some(x) => Some(AlbionOperation::ResponseGoldMarketGetAverageInfo(x)),
            None => None,
        }
    } else if code == codes.real_estate_get_auction_data {
        match OperationRealEstateGetAuctionDataResponse::decode(&params) {
            Some(x) => Some(AlbionOperation::ResponseRealEstateGetAuctionData(x)),
            None => None,
        }
    } else if code == codes.real_estate_bid_on_auction {
        match OperationRealEstateBidOnAuctionResponse::decode(&params) {
            Some(x) => Some(AlbionOperation::ResponseRealEstateBidOnAuction(x)),
            None => None,
        }
    } else {
        None
    }
}

/// Decodes an event by its event code (parameter 252).
pub fn decode_event(params: HashMap<u8, PhotonValue>, codes: &EventCodes) -> (r: Option<AlbionOperation>)
    ensures
        event_decoded(params_model(params@), *codes, r),
{
    let code = match resolve_event_code(&params) {
        Some(c) => c,
        None => return None,
    };
    if code == codes.character_stats {
        match EventCharacterStats::decode(&params) {
            Some(x) => Some(AlbionOperation::EventCharacterStats(x)),
            None => None,
        }
    } else if code == codes.red_zone_world_map_event {
        match EventRedZoneWorldMapEvent::decode(&params) {
            Some(x) => Some(AlbionOperation::EventRedZoneWorldMapEvent(x)),
            None => None,
        }
    } else if code == codes.full_achievement_info {
        match EventFullAchievementInfo::decode(&params) {
            Some(x) => Some(AlbionOperation::EventFullAchievementInfo(x)),
            None => None,
        }
    } else {
        None
    }
}

/// Each request code decodes its own operation (the codes being distinct);
/// a request without a code, or with another, decodes as nothing.
pub proof fn lemma_request_dispatch(m: Map<u8, SpecValue>, codes: OperationCodes, r: Option<AlbionOperation>)
    requires
        request_decoded(m, codes, r),
        codes.get_game_server_by_cluster != codes.auction_get_offers,
        codes.get_game_server_by_cluster != codes.auction_get_item_average_stats,
        codes.get_game_server_by_cluster != codes.get_cluster_map_info,
        codes.get_game_server_by_cluster != codes.gold_market_get_average_info,
        codes.get_game_server_by_cluster != codes.real_estate_get_auction_data,
        codes.get_game_server_by_cluster != codes.real_estate_bid_on_auction,
        codes.auction_get_offers != codes.auction_get_item_average_stats,
        codes.auction_get_offers != codes.get_cluster_map_info,
        codes.auction_get_offers != codes.gold_market_get_average_info,
        codes.auction_get_offers != codes.real_estate_get_auction_data,
        codes.auction_get_offers != codes.real_estate_bid_on_auction,
        codes.auction_get_item_average_stats != codes.get_cluster_map_info,
        codes.auction_get_item_average_stats != codes.gold_market_get_average_info,
        codes.auction_get_item_average_stats != codes.real_estate_get_auction_data,
        codes.auction_get_item_average_stats != codes.real_estate_bid_on_auction,
        codes.get_cluster_map_info != codes.gold_market_get_average_info,
        codes.get_cluster_map_info != codes.real_estate_get_auction_data,
        codes.get_cluster_map_info != codes.real_estate_bid_on_auction,
        codes.gold_market_get_average_info != codes.real_estate_get_auction_data,
        codes.gold_market_get_average_info != codes.real_estate_bid_on_auction,
        codes.real_estate_get_auction_data != codes.real_estate_bid_on_auction,
    ensures
        operation_code(m) == Some(codes.get_game_server_by_cluster) ==> (r matches Some(AlbionOperation::RequestGetGameServerByCluster(x)) && x.decoded_from(m)),
        operation_code(m) == Some(codes.auction_get_offers) ==> (r matches Some(AlbionOperation::RequestAuctionGetOffers(x)) && x.decoded_from(m)),
        operation_code(m) == Some(codes.auction_get_item_average_stats) ==> (r matches Some(AlbionOperation::RequestAuctionGetItemAverageStats(x)) && x.decoded_from(m)),
        operation_code(m) == Some(codes.get_cluster_map_info) ==> (r matches Some(AlbionOperation::RequestGetClusterMapInfo(x)) && x.decoded_from(m)),
        operation_code(m) == Some(codes.gold_market_get_average_info) ==> (r matches Some(AlbionOperation::RequestGoldMarketGetAverageInfo(x)) && x.decoded_from(m)),
        operation_code(m) == Some(codes.real_estate_get_auction_data) ==> (r matches Some(AlbionOperation::RequestRealEstateGetAuctionData(x)) && x.decoded_from(m)),
        operation_code(m) == Some(codes.real_estate_bid_on_auction) ==> (r matches Some(AlbionOperation::RequestRealEstateBidOnAuction(x)) && x.decoded_from(m)),
        operation_code(m) is None ==> r is None,
        (operation_code(m) matches Some(c) && c != codes.get_game_server_by_cluster && c != codes.auction_get_offers && c != codes.auction_get_item_average_stats && c != codes.get_cluster_map_info && c != codes.gold_market_get_average_info && c != codes.real_estate_get_auction_data && c != codes.real_estate_bid_on_auction) ==> r is None,
{
}

/// Each response code decodes its own operation (the codes being distinct);
/// a response without a code, or with another, decodes as nothing.
pub proof fn lemma_response_dispatch(m: Map<u8, SpecValue>, codes: OperationCodes, r: Option<AlbionOperation>)
    requires
        response_decoded(m, codes, r),
        codes.join != codes.auction_get_offers,
        codes.join != codes.auction_get_requests,
        codes.join != codes.auction_get_item_average_stats,
        codes.join != codes.get_mail_infos,
        codes.join != codes.read_mail,
        codes.join != codes.get_cluster_map_info,
        codes.join != codes.gold_market_get_average_info,
        codes.join != codes.real_estate_get_auction_data,
        codes.join != codes.real_estate_bid_on_auction,
        codes.auction_get_offers != codes.auction_get_requests,
        codes.auction_get_offers != codes.auction_get_item_average_stats,
        codes.auction_get_offers != codes.get_mail_infos,
        codes.auction_get_offers != codes.read_mail,
        codes.auction_get_offers != codes.get_cluster_map_info,
        codes.auction_get_offers != codes.gold_market_get_average_info,
        codes.auction_get_offers != codes.real_estate_get_auction_data,
        codes.auction_get_offers != codes.real_estate_bid_on_auction,
        codes.auction_get_requests != codes.auction_get_item_average_stats,
        codes.auction_get_requests != codes.get_mail_infos,
        codes.auction_get_requests != codes.read_mail,
        codes.auction_get_requests != codes.get_cluster_map_info,
        codes.auction_get_requests != codes.gold_market_get_average_info,
        codes.auction_get_requests != codes.real_estate_get_auction_data,
        codes.auction_get_requests != codes.real_estate_bid_on_auction,
        codes.auction_get_item_average_stats != codes.get_mail_infos,
        codes.auction_get_item_average_stats != codes.read_mail,
        codes.auction_get_item_average_stats != codes.get_cluster_map_info,
        codes.auction_get_item_average_stats != codes.gold_market_get_average_info,
        codes.auction_get_item_average_stats != codes.real_estate_get_auction_data,
        codes.auction_get_item_average_stats != codes.real_estate_bid_on_auction,
        codes.get_mail_infos != codes.read_mail,
        codes.get_mail_infos != codes.get_cluster_map_info,
        codes.get_mail_infos != codes.gold_market_get_average_info,
        codes.get_mail_infos != codes.real_estate_get_auction_data,
        codes.get_mail_infos != codes.real_estate_bid_on_auction,
        codes.read_mail != codes.get_cluster_map_info,
        codes.read_mail != codes.gold_market_get_average_info,
        codes.read_mail != codes.real_estate_get_auction_data,
        codes.read_mail != codes.real_estate_bid_on_auction,
        codes.get_cluster_map_info != codes.gold_market_get_average_info,
        codes.get_cluster_map_info != codes.real_estate_get_auction_data,
        codes.get_cluster_map_info != codes.real_estate_bid_on_auction,
        codes.gold_market_get_average_info != codes.real_estate_get_auction_data,
        codes.gold_market_get_average_info != codes.real_estate_bid_on_auction,
        codes.real_estate_get_auction_data != codes.real_estate_bid_on_auction,
    ensures
        operation_code(m) == Some(codes.join) ==> (r matches Some(AlbionOperation::ResponseJoin(x)) && x.decoded_from(m)),
        operation_code(m) == Some(codes.auction_get_offers) ==> (r matches Some(AlbionOperation::ResponseAuctionGetOffers(x)) && x.decoded_from(m)),
        operation_code(m) == Some(codes.auction_get_requests) ==> (r matches Some(AlbionOperation::ResponseAuctionGetRequests(x)) && x.decoded_from(m)),
        operation_code(m) == Some(codes.auction_get_item_average_stats) ==> (r matches Some(AlbionOperation::ResponseAuctionGetItemAverageStats(x)) && x.decoded_from(m)),
        operation_code(m) == Some(codes.get_mail_infos) ==> (r matches Some(AlbionOperation::ResponseGetMailInfos(x)) && x.decoded_from(m)),
        operation_code(m) == Some(codes.read_mail) ==> (r matches Some(AlbionOperation::ResponseReadMail(x)) && x.decoded_from(m)),
        operation_code(m) == Some(codes.get_cluster_map_info) ==> (r matches Some(AlbionOperation::ResponseGetClusterMapInfo(x)) && x.decoded_from(m)),
        operation_code(m) == Some(codes.gold_market_get_average_info) ==> (r matches Some(AlbionOperation::ResponseGoldMarketGetAverageInfo(x)) && x.decoded_from(m)),
        operation_code(m) == Some(codes.real_estate_get_auction_data) ==> (r matches Some(AlbionOperation::ResponseRealEstateGetAuctionData(x)) && x.decoded_from(m)),
        operation_code(m) == Some(codes.real_estate_bid_on_auction) ==> (r matches Some(AlbionOperation::ResponseRealEstateBidOnAuction(x)) && x.decoded_from(m)),
        operation_code(m) is None ==> r is None,
        (operation_code(m) matches Some(c) && c != codes.join && c != codes.auction_get_offers && c != codes.auction_get_requests && c != codes.auction_get_item_average_stats && c != codes.get_mail_infos && c != codes.read_mail && c != codes.get_cluster_map_info && c != codes.gold_market_get_average_info && c != codes.real_estate_get_auction_data && c != codes.real_estate_bid_on_auction) ==> r is None,
{
}

/// Each event code decodes its own event (the codes being distinct); an
/// event without a code, or with another, decodes as nothing.
pub proof fn lemma_event_dispatch(m: Map<u8, SpecValue>, codes: EventCodes, r: Option<AlbionOperation>)
    requires
        event_decoded(m, codes, r),
        codes.character_stats != codes.red_zone_world_map_event,
        codes.character_stats != codes.full_achievement_info,
        codes.red_zone_world_map_event != codes.full_achievement_info,
    ensures
        event_code(m) == Some(codes.character_stats) ==> (r matches Some(AlbionOperation::EventCharacterStats(x)) && x.decoded_from(m)),
        event_code(m) == Some(codes.red_zone_world_map_event) ==> (r matches Some(AlbionOperation::EventRedZoneWorldMapEvent(x)) && x.decoded_from(m)),
        event_code(m) == Some(codes.full_achievement_info) ==> (r matches Some(AlbionOperation::EventFullAchievementInfo(x)) && x.decoded_from(m)),
        event_code(m) is None ==> r is None,
        (event_code(m) matches Some(c) && c != codes.character_stats && c != codes.red_zone_world_map_event && c != codes.full_achievement_info) ==> r is None,
{
}

/// The operation code is parameter 253 and the event code parameter 252,
/// read from any integer value: a code in range is taken as it is, and a
/// table without the parameter, or with a non-integer there, has no code.
pub proof fn lemma_codes_from_parameters(m: Map<u8, SpecValue>, c: u16)
    requires
        0 <= c <= MAX_OPCODE,
    ensures
        m.contains_key(253) && (m[253] == SpecValue::Short(c as i16) || m[253] == SpecValue::Int(c as i32)
            || m[253] == SpecValue::Long(c as i64)) ==> operation_code(m) == Some(c),
        m.contains_key(252) && (m[252] == SpecValue::Short(c as i16) || m[252] == SpecValue::Int(c as i32)
            || m[252] == SpecValue::Long(c as i64)) ==> event_code(m) == Some(c),
        m.contains_key(253) && c < 256 && m[253] == SpecValue::Byte(c as u8) ==> operation_code(m) == Some(c),
        !m.contains_key(253) ==> operation_code(m) is None,
        !m.contains_key(252) ==> event_code(m) is None,
        m.contains_key(253) && (m[253] is String || m[253] is Null || m[253] is Bool) ==> operation_code(m) is None,
        m.contains_key(252) && (m[252] is String || m[252] is Null || m[252] is Bool) ==> event_code(m) is None,
{
    assert((c as i16) as u16 == c && (c as i32) as u16 == c && (c as i64) as u16 == c) by (bit_vector)
        requires
            c <= 539u16,
    ;
    assert(c < 256 ==> (c as u8) as u16 == c) by (bit_vector);
}

} // verus!
