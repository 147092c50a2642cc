use std::collections::HashMap;
use albion_packets::decoder::{AlbionOperation, EventCodes, OperationCodes};
use albion_packets::deserializer::PhotonValue;
use albion_packets::inspector::AlbionListener;

fn listener() -> AlbionListener {
    AlbionListener {
        operations: OperationCodes {
            auction_get_item_average_stats: 11,
            auction_get_offers: 12,
            auction_get_requests: 13,
            get_cluster_map_info: 14,
            get_game_server_by_cluster: 15,
            get_mail_infos: 16,
            gold_market_get_average_info: 17,
            join: 18,
            read_mail: 19,
            real_estate_bid_on_auction: 20,
            real_estate_get_auction_data: 21,
        },
        events: EventCodes { character_stats: 30, red_zone_world_map_event: 31, full_achievement_info: 32 },
    }
}

fn params(entries: Vec<(u8, PhotonValue)>) -> HashMap<u8, PhotonValue> {
    entries.into_iter().collect()
}

#[test]
fn request_code_stands_in_for_a_missing_parameter() {
    let p = params(vec![(1, PhotonValue::String("cluster".to_string()))]);
    match listener().on_request(15, p) {
        Some(AlbionOperation::RequestGetGameServerByCluster(op)) => assert_eq!(op.cluster_id, "cluster"),
        other => panic!("unexpected {:?}", other),
    }
}

#[test]
fn parameter_code_wins_over_the_message_code() {
    let p = params(vec![(253, PhotonValue::Short(14)), (1, PhotonValue::String("c".to_string()))]);
    match listener().on_request(15, p) {
        Some(AlbionOperation::RequestGetClusterMapInfo(_)) => {}
        other => panic!("unexpected {:?}", other),
    }
    assert!(listener().on_request(99, HashMap::new()).is_none());
}

#[test]
fn market_data_is_decoded_as_auction_offers() {
    let orders = PhotonValue::Array(vec![PhotonValue::String("{\"Id\":1}".to_string())]);
    match listener().on_response(18, 0, String::new(), params(vec![(0, orders)])) {
        Some(AlbionOperation::ResponseAuctionGetOffers(op)) => {
            assert_eq!(op.market_orders, vec!["{\"Id\":1}".to_string()])
        }
        other => panic!("unexpected {:?}", other),
    }
    // An array holding anything but strings is no market data.
    let mixed = PhotonValue::Array(vec![PhotonValue::String("a".to_string()), PhotonValue::Int(1)]);
    match listener().on_response(18, 0, String::new(), params(vec![(0, mixed)])) {
        Some(AlbionOperation::ResponseJoin(_)) => {}
        other => panic!("unexpected {:?}", other),
    }
}

#[test]
fn event_code_stands_in_for_a_missing_parameter() {
    let p = params(vec![(1, PhotonValue::Array(vec![PhotonValue::Short(3)]))]);
    match listener().on_event(32, p) {
        Some(AlbionOperation::EventFullAchievementInfo(_)) => {}
        other => panic!("unexpected {:?}", other),
    }
    assert!(listener().on_event(33, HashMap::new()).is_none());
}
