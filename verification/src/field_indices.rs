//! Which parameter each field of a decoded operation or event comes from.
//!
//! Each law lists, field by field, the parameter index (and dictionary key)
//! a decoded value takes its field from, and the conversion it applies.
use vstd::prelude::*;
use crate::convert::strings_model;
use crate::structs::{
    bool_param,
    character_id_param,
    dict_u64_param,
    double_param,
    i16s_param,
    i32_param,
    i64_param,
    single_param,
    string_param,
    strings_param,
    u16s_param,
    u32_param,
    u64_param,
    u8s_param,
    EventCharacterStats,
    EventFullAchievementInfo,
    EventRedZoneWorldMapEvent,
    OperationAuctionGetItemAverageStats,
    OperationAuctionGetItemAverageStatsResponse,
    OperationAuctionGetOffers,
    OperationAuctionGetOffersResponse,
    OperationAuctionGetRequestsResponse,
    OperationGetClusterMapInfo,
    OperationGetClusterMapInfoResponse,
    OperationGetGameServerByCluster,
    OperationGetMailInfosResponse,
    OperationGoldMarketGetAverageInfoResponse,
    OperationJoinResponse,
    OperationReadMailResponse,
    OperationRealEstateBidOnAuction,
    OperationRealEstateBidOnAuctionResponse,
    OperationRealEstateGetAuctionDataResponse,
};
use crate::wire::SpecValue;

verus! {

/// `OperationGetGameServerByCluster` takes each field from its parameter (1), converted by the
/// field's type, a missing or unconvertible parameter giving the default.
pub proof fn lemma_operation_get_game_server_by_cluster_fields(x: OperationGetGameServerByCluster, m: Map<u8, SpecValue>)
    requires
        x.decoded_from(m),
    ensures
        x.cluster_id@ == string_param(m, 1),
{
}

/// `OperationAuctionGetOffers` takes each field from its parameter (1, 2, 5, 6, 8, 10, 12, 14), converted by the
/// field's type, a missing or unconvertible parameter giving the default.
pub proof fn lemma_operation_auction_get_offers_fields(x: OperationAuctionGetOffers, m: Map<u8, SpecValue>)
    requires
        x.decoded_from(m),
    ensures
        x.category@ == string_param(m, 1),
        x.sub_category@ == string_param(m, 2),
        x.quality@ == string_param(m, 5),
        x.enchantment == u32_param(m, 6),
        x.enchantment_level@ == string_param(m, 10),
        x.item_ids@ == u16s_param(m, 8),
        x.max_results == u32_param(m, 12),
        x.is_ascending_order == bool_param(m, 14),
{
}

/// `OperationAuctionGetItemAverageStats` takes each field from its parameter (1), converted by the
/// field's type, a missing or unconvertible parameter giving the default.
pub proof fn lemma_operation_auction_get_item_average_stats_fields(x: OperationAuctionGetItemAverageStats, m: Map<u8, SpecValue>)
    requires
        x.decoded_from(m),
    ensures
        x.item_id == u32_param(m, 1),
{
}

/// `OperationGetClusterMapInfo` takes each field from its parameter (1), converted by the
/// field's type, a missing or unconvertible parameter giving the default.
pub proof fn lemma_operation_get_cluster_map_info_fields(x: OperationGetClusterMapInfo, m: Map<u8, SpecValue>)
    requires
        x.decoded_from(m),
    ensures
        x.cluster_id@ == string_param(m, 1),
{
}

/// `OperationRealEstateBidOnAuction` takes each field from its parameter (1, 2), converted by the
/// field's type, a missing or unconvertible parameter giving the default.
pub proof fn lemma_operation_real_estate_bid_on_auction_fields(x: OperationRealEstateBidOnAuction, m: Map<u8, SpecValue>)
    requires
        x.decoded_from(m),
    ensures
        x.auction_id == u64_param(m, 1),
        x.bid_amount == u64_param(m, 2),
{
}

/// `OperationJoinResponse` takes each field from its parameter (1, 2, 8, 56, 58), converted by the
/// field's type, a missing or unconvertible parameter giving the default.
pub proof fn lemma_operation_join_response_fields(x: OperationJoinResponse, m: Map<u8, SpecValue>)
    requires
        x.decoded_from(m),
    ensures
        x.character_id@ == character_id_param(m, 1),
        x.character_name@ == string_param(m, 2),
        x.location@ == string_param(m, 8),
        x.guild_id@ == character_id_param(m, 56),
        x.guild_name@ == string_param(m, 58),
{
}

/// `OperationAuctionGetOffersResponse` takes each field from its parameter (0), converted by the
/// field's type, a missing or unconvertible parameter giving the default.
pub proof fn lemma_operation_auction_get_offers_response_fields(x: OperationAuctionGetOffersResponse, m: Map<u8, SpecValue>)
    requires
        x.decoded_from(m),
    ensures
        strings_model(x.market_orders@) == strings_param(m, 0),
{
}

/// `OperationAuctionGetRequestsResponse` takes each field from its parameter (0), converted by the
/// field's type, a missing or unconvertible parameter giving the default.
pub proof fn lemma_operation_auction_get_requests_response_fields(x: OperationAuctionGetRequestsResponse, m: Map<u8, SpecValue>)
    requires
        x.decoded_from(m),
    ensures
        strings_model(x.market_orders@) == strings_param(m, 0),
{
}

/// `OperationAuctionGetItemAverageStatsResponse` takes each field from its parameter (1, 2), converted by the
/// field's type, a missing or unconvertible parameter giving the default.
pub proof fn lemma_operation_auction_get_item_average_stats_response_fields(x: OperationAuctionGetItemAverageStatsResponse, m: Map<u8, SpecValue>)
    requires
        x.decoded_from(m),
    ensures
        x.item_id == u32_param(m, 1),
        x.average_price == double_param(m, 2),
{
}

/// `OperationGetMailInfosResponse` takes each field from its parameter (1), converted by the
/// field's type, a missing or unconvertible parameter giving the default.
pub proof fn lemma_operation_get_mail_infos_response_fields(x: OperationGetMailInfosResponse, m: Map<u8, SpecValue>)
    requires
        x.decoded_from(m),
    ensures
        x.mail_count == u32_param(m, 1),
{
}

/// `OperationReadMailResponse` takes each field from its parameter (1, 2, 3), converted by the
/// field's type, a missing or unconvertible parameter giving the default.
pub proof fn lemma_operation_read_mail_response_fields(x: OperationReadMailResponse, m: Map<u8, SpecValue>)
    requires
        x.decoded_from(m),
    ensures
        x.mail_id == u64_param(m, 1),
        x.subject@ == string_param(m, 2),
        x.body@ == string_param(m, 3),
{
}

/// `OperationGetClusterMapInfoResponse` takes each field from its parameter (1, 2), converted by the
/// field's type, a missing or unconvertible parameter giving the default.
pub proof fn lemma_operation_get_cluster_map_info_response_fields(x: OperationGetClusterMapInfoResponse, m: Map<u8, SpecValue>)
    requires
        x.decoded_from(m),
    ensures
        x.cluster_id@ == string_param(m, 1),
        x.cluster_name@ == string_param(m, 2),
{
}

/// `OperationGoldMarketGetAverageInfoResponse` takes each field from its parameter (1), converted by the
/// field's type, a missing or unconvertible parameter giving the default.
pub proof fn lemma_operation_gold_market_get_average_info_response_fields(x: OperationGoldMarketGetAverageInfoResponse, m: Map<u8, SpecValue>)
    requires
        x.decoded_from(m),
    ensures
        x.average_gold_price == double_param(m, 1),
{
}

/// `OperationRealEstateGetAuctionDataResponse` takes each field from its parameter (1, 2, 3), converted by the
/// field's type, a missing or unconvertible parameter giving the default.
pub proof fn lemma_operation_real_estate_get_auction_data_response_fields(x: OperationRealEstateGetAuctionDataResponse, m: Map<u8, SpecValue>)
    requires
        x.decoded_from(m),
    ensures
        x.auction_id == u64_param(m, 1),
        x.starting_bid == u64_param(m, 2),
        x.buyout_price == u64_param(m, 3),
{
}

/// `OperationRealEstateBidOnAuctionResponse` takes each field from its parameter (1, 2), converted by the
/// field's type, a missing or unconvertible parameter giving the default.
pub proof fn lemma_operation_real_estate_bid_on_auction_response_fields(x: OperationRealEstateBidOnAuctionResponse, m: Map<u8, SpecValue>)
    requires
        x.decoded_from(m),
    ensures
        x.success == bool_param(m, 1),
        x.auction_id == u64_param(m, 2),
{
}

/// `EventRedZoneWorldMapEvent` takes each field from its parameter (0, 1), converted by the
/// field's type, a missing or unconvertible parameter giving the default.
pub proof fn lemma_event_red_zone_world_map_event_fields(x: EventRedZoneWorldMapEvent, m: Map<u8, SpecValue>)
    requires
        x.decoded_from(m),
    ensures
        x.event_time == i64_param(m, 0),
        x.phase == i32_param(m, 1),
{
}

/// `EventFullAchievementInfo` takes each field from its parameter (1, 2, 3), converted by the
/// field's type, a missing or unconvertible parameter giving the default.
pub proof fn lemma_event_full_achievement_info_fields(x: EventFullAchievementInfo, m: Map<u8, SpecValue>)
    requires
        x.decoded_from(m),
    ensures
        x.completed_achievement_ids@ == i16s_param(m, 1),
        x.active_achievement_ids@ == i16s_param(m, 2),
        x.active_achievement_levels@ == u8s_param(m, 3),
{
}

/// `EventCharacterStats` takes each field from its parameter (1, 2, 4, 5, 6, 7, 8, 9, 10, 11, 13, 14, 15, 16, 17, 18, 19, 29, 30, 31, 32, 36, 38, 39, 42, 43, 45, 46, 47, 48, 49, 51, 52, 53, 54, 55, 56, 58, 59, 60, 61, 62), converted by the
/// field's type, a missing or unconvertible parameter giving the default.
pub proof fn lemma_event_character_stats_fields(x: EventCharacterStats, m: Map<u8, SpecValue>)
    requires
        x.decoded_from(m),
    ensures
        x.player_name@ == string_param(m, 1),
        x.guild_name@ == string_param(m, 2),
        x.alliance_name@ == string_param(m, 4),
        x.profile_description@ == string_param(m, 5),
        x.reputation == single_param(m, 8),
        x.silver == u64_param(m, 6),
        x.total_fame == u64_param(m, 7),
        x.fame_pvp == u64_param(m, 11),
        x.fame_pve == u64_param(m, 13),
        x.fame_gathering == u64_param(m, 14),
        x.fame_crafting == u64_param(m, 16),
        x.total_kills == u32_param(m, 10),
        x.resources_invested == u64_param(m, 15),
        x.current_rank == u32_param(m, 60),
        x.current_rank_points == u32_param(m, 61),
        x.highest_rank_points == u32_param(m, 62),
        x.standing_antiquarian == dict_u64_param(m, 9, 2),
        x.standing_brecilien == dict_u64_param(m, 9, 0),
        x.standing_smugglers == dict_u64_param(m, 9, 1),
        x.arena_battles_played == u32_param(m, 29),
        x.arena_battles_won == u32_param(m, 30),
        x.crystal_arena_matches_played == u32_param(m, 31),
        x.crystal_arena_matches_won == u32_param(m, 32),
        x.crystal_league_5v5_battles == u32_param(m, 59),
        x.crystal_league_5v5_wins == u32_param(m, 45),
        x.crystal_league_5v5_lethal_battles == u32_param(m, 42),
        x.crystal_league_5v5_lethal_wins == u32_param(m, 43),
        x.crystal_league_20v20_battles == u32_param(m, 46),
        x.crystal_league_20v20_wins == u32_param(m, 47),
        x.crystal_league_kills == u32_param(m, 48),
        x.crystal_league_kill_fame == u64_param(m, 49),
        x.crystal_realm_battles == u32_param(m, 36),
        x.crystal_realm_kills == u32_param(m, 38),
        x.crystal_realm_kill_fame == u64_param(m, 39),
        x.infamy_corrupted == u32_param(m, 52),
        x.infamy_2v2_hellgates == u32_param(m, 54),
        x.infamy_5v5_hellgates == u32_param(m, 56),
        x.infamy_10v10_hellgates == u32_param(m, 58),
        x.infamy_corrupted_highest == u32_param(m, 51),
        x.infamy_2v2_hellgates_highest == u32_param(m, 53),
        x.infamy_5v5_hellgates_highest == u32_param(m, 55),
        x.gvg_kills == u32_param(m, 18),
        x.gvg_fights_participated == u32_param(m, 17),
        x.gvg_fame == u64_param(m, 19),
{
}

} // verus!
