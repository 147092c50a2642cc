use std::collections::HashMap;
use albion_packets::achievements::{achievement_steps, AchievementStep};
use albion_packets::convert::{get_param, FloatBits};
use albion_packets::decoder::{decode_event, decode_request, decode_response, AlbionOperation, EventCodes, OperationCodes};
use albion_packets::deserializer::PhotonValue;
use albion_packets::ops::get_string_array;
use albion_packets::structs::{EventCharacterStats, EventFullAchievementInfo, OperationAuctionGetOffers, OperationJoinResponse};

fn op_codes() -> OperationCodes {
    OperationCodes {
        auction_get_item_average_stats: 11,
        auction_get_offers: 12,
        auction_get_requests: 13,
        get_cluster_map_info: 14,
        get_game_server_by_cluster: 15,
        get_mail_infos: 16,
        gold_market_get_average_info: 17,
        join: 18,
        read_mail: 19,
        real_estate_bid_on_auction: 20,
        real_estate_get_auction_data: 21,
    }
}

fn ev_codes() -> EventCodes {
    EventCodes { character_stats: 30, red_zone_world_map_event: 31, full_achievement_info: 32 }
}

fn params(entries: Vec<(u8, PhotonValue)>) -> HashMap<u8, PhotonValue> {
    entries.into_iter().collect()
}

#[test]
fn request_by_code() {
    let p = params(vec![(253, PhotonValue::Short(15)), (1, PhotonValue::String("cluster".to_string()))]);
    match decode_request(p, &op_codes()) {
        Some(AlbionOperation::RequestGetGameServerByCluster(op)) => assert_eq!(op.cluster_id, "cluster"),
        other => panic!("unexpected {:?}", other),
    }
}

#[test]
fn request_code_with_swapped_bytes() {
    let p = params(vec![(253, PhotonValue::Int(15 << 8)), (1, PhotonValue::Long(7))]);
    match decode_request(p, &op_codes()) {
        Some(AlbionOperation::RequestGetGameServerByCluster(op)) => assert_eq!(op.cluster_id, ""),
        other => panic!("unexpected {:?}", other),
    }
}

#[test]
fn request_without_or_with_unknown_code() {
    assert!(decode_request(params(vec![(1, PhotonValue::Short(15))]), &op_codes()).is_none());
    assert!(decode_request(params(vec![(253, PhotonValue::String("x".to_string()))]), &op_codes()).is_none());
    assert!(decode_request(params(vec![(253, PhotonValue::Short(400))]), &op_codes()).is_none());
    // A response-only code is no request.
    assert!(decode_request(params(vec![(253, PhotonValue::Short(18))]), &op_codes()).is_none());
}

#[test]
fn auction_offers_request_fields() {
    let p = params(vec![
        (253, PhotonValue::Byte(12)),
        (1, PhotonValue::String("weapons".to_string())),
        (6, PhotonValue::Long(-1)),
        (8, PhotonValue::Array(vec![PhotonValue::Short(-1), PhotonValue::Int(70000), PhotonValue::Byte(3)])),
        (12, PhotonValue::Int(50)),
        (14, PhotonValue::Bool(true)),
    ]);
    match decode_request(p, &op_codes()) {
        Some(AlbionOperation::RequestAuctionGetOffers(op)) => {
            assert_eq!(op.category, "weapons");
            assert_eq!(op.sub_category, "");
            assert_eq!(op.enchantment, u32::MAX);
            assert_eq!(op.item_ids, vec![65535u16, 70000u32 as u16, 3]);
            assert_eq!(op.max_results, 50);
            assert!(op.is_ascending_order);
        }
        other => panic!("unexpected {:?}", other),
    }
}

#[test]
fn fields_of_another_kind_take_defaults() {
    let p = params(vec![
        (6, PhotonValue::String("no".to_string())),
        (8, PhotonValue::Array(vec![PhotonValue::String("no".to_string())])),
        (14, PhotonValue::Byte(1)),
    ]);
    let op = OperationAuctionGetOffers::decode(&p).unwrap();
    assert_eq!(op.enchantment, 0);
    assert!(op.item_ids.is_empty());
    assert!(!op.is_ascending_order);
}

#[test]
fn join_response_character_ids() {
    let id: Vec<PhotonValue> = (0u8..16).map(PhotonValue::Byte).collect();
    let p = params(vec![
        (253, PhotonValue::Short(18)),
        (1, PhotonValue::Array(id)),
        (2, PhotonValue::String("Hero".to_string())),
        (56, PhotonValue::Array(vec![PhotonValue::Byte(1), PhotonValue::Byte(0xab)])),
    ]);
    match decode_response(p, 0, String::new(), &op_codes()) {
        Some(AlbionOperation::ResponseJoin(op)) => {
            assert_eq!(op.character_id, "03020100-0504-0706-0809-0a0b0c0d0e0f");
            assert_eq!(op.character_name, "Hero");
            assert_eq!(op.guild_id, "[1, ab]");
            assert_eq!(op.guild_name, "");
        }
        other => panic!("unexpected {:?}", other),
    }
    let op = OperationJoinResponse::decode(&HashMap::new()).unwrap();
    assert_eq!(op.character_id, "");
}

#[test]
fn market_orders_response() {
    let p = params(vec![
        (253, PhotonValue::Short(12)),
        (0, PhotonValue::ObjectArray(vec![PhotonValue::String("{}".to_string())])),
    ]);
    match decode_response(p, 0, String::new(), &op_codes()) {
        Some(AlbionOperation::ResponseAuctionGetOffers(op)) => assert_eq!(op.market_orders, vec!["{}".to_string()]),
        other => panic!("unexpected {:?}", other),
    }
}

#[test]
fn average_stats_response_keeps_float_bits() {
    let p = params(vec![(253, PhotonValue::Short(11)), (1, PhotonValue::Int(5)), (2, PhotonValue::Float(2.5f32.to_bits()))]);
    match decode_response(p, 0, String::new(), &op_codes()) {
        Some(AlbionOperation::ResponseAuctionGetItemAverageStats(op)) => {
            assert_eq!(op.item_id, 5);
            assert_eq!(op.average_price, FloatBits::Single(2.5f32.to_bits()));
        }
        other => panic!("unexpected {:?}", other),
    }
    let p = params(vec![(253, PhotonValue::Short(11))]);
    match decode_response(p, 0, String::new(), &op_codes()) {
        Some(AlbionOperation::ResponseAuctionGetItemAverageStats(op)) => assert_eq!(op.average_price, FloatBits::Double(0)),
        other => panic!("unexpected {:?}", other),
    }
}

#[test]
fn events_by_code() {
    let p = params(vec![(252, PhotonValue::Short(31)), (0, PhotonValue::Int(-3)), (1, PhotonValue::Byte(2))]);
    match decode_event(p, &ev_codes()) {
        Some(AlbionOperation::EventRedZoneWorldMapEvent(ev)) => {
            assert_eq!(ev.event_time, -3);
            assert_eq!(ev.phase, 2);
        }
        other => panic!("unexpected {:?}", other),
    }
    assert!(decode_event(params(vec![(253, PhotonValue::Short(31))]), &ev_codes()).is_none());
}

#[test]
fn character_stats_standings() {
    let dict = PhotonValue::Dictionary(vec![
        (PhotonValue::Int(0), PhotonValue::Long(100)),
        (PhotonValue::Int(1), PhotonValue::Short(7)),
        (PhotonValue::Int(2), PhotonValue::String("x".to_string())),
        (PhotonValue::Int(0), PhotonValue::Int(200)),
        (PhotonValue::Long(1), PhotonValue::Int(999)),
    ]);
    let p = params(vec![
        (252, PhotonValue::Short(30)),
        (1, PhotonValue::String("Hero".to_string())),
        (8, PhotonValue::Double(1.5f64.to_bits())),
        (9, dict),
        (6, PhotonValue::Long(1_000_000)),
    ]);
    match decode_event(p, &ev_codes()) {
        Some(AlbionOperation::EventCharacterStats(ev)) => {
            assert_eq!(ev.player_name, "Hero");
            assert_eq!(ev.reputation, FloatBits::Double(1.5f64.to_bits()));
            assert_eq!(ev.silver, 1_000_000);
            assert_eq!(ev.standing_brecilien, 200);
            assert_eq!(ev.standing_smugglers, 7);
            assert_eq!(ev.standing_antiquarian, 0);
        }
        other => panic!("unexpected {:?}", other),
    }
    let ev = EventCharacterStats::decode(&HashMap::new()).unwrap();
    assert_eq!(ev.reputation, FloatBits::Single(0));
    assert_eq!(ev.standing_brecilien, 0);
}

#[test]
fn get_param_conversions() {
    let p = params(vec![
        (1, PhotonValue::Long(-1)),
        (2, PhotonValue::Short(-2)),
        (3, PhotonValue::Byte(3)),
        (4, PhotonValue::String("s".to_string())),
    ]);
    assert_eq!(get_param::<u32>(&p, 1), Some(u32::MAX));
    assert_eq!(get_param::<i32>(&p, 1), None);
    assert_eq!(get_param::<i64>(&p, 2), Some(-2));
    assert_eq!(get_param::<u64>(&p, 2), Some(u64::MAX - 1));
    assert_eq!(get_param::<u8>(&p, 3), Some(3));
    assert_eq!(get_param::<i16>(&p, 3), None);
    assert_eq!(get_param::<String>(&p, 4), Some("s".to_string()));
    assert_eq!(get_param::<bool>(&p, 4), None);
    assert_eq!(get_param::<u32>(&p, 9), None);
}

#[test]
fn string_arrays() {
    let p = params(vec![
        (0, PhotonValue::Array(vec![PhotonValue::String("a".to_string()), PhotonValue::String("b".to_string())])),
        (1, PhotonValue::ObjectArray(vec![PhotonValue::String("a".to_string())])),
        (2, PhotonValue::Array(vec![PhotonValue::String("a".to_string()), PhotonValue::Byte(1)])),
    ]);
    assert_eq!(get_string_array(&p, 0), Some(vec!["a".to_string(), "b".to_string()]));
    assert_eq!(get_string_array(&p, 1), None);
    assert_eq!(get_string_array(&p, 2), None);
    assert_eq!(get_param::<Vec<String>>(&p, 1), Some(vec!["a".to_string()]));
}

#[test]
fn achievement_export_steps() {
    let ev = EventFullAchievementInfo {
        completed_achievement_ids: vec![0, 5, -1],
        active_achievement_ids: vec![1, 2, 9, 3],
        active_achievement_levels: vec![4, 0, 1],
    };
    assert_eq!(
        achievement_steps(&ev, 5),
        vec![
            AchievementStep::Completed(0),
            AchievementStep::CompletedOutOfRange(5),
            AchievementStep::CompletedOutOfRange(-1),
            AchievementStep::Active(1, 4),
            AchievementStep::ActiveOutOfRange(9),
        ]
    );
}
