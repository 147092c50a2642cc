use albion_packets::achievements::{achievement_levels, levels_json};
use albion_packets::structs::EventFullAchievementInfo;

fn table() -> Vec<(String, u8)> {
    vec![("A".to_string(), 1), ("B".to_string(), 2), ("C".to_string(), 3), ("b".to_string(), 4)]
}

#[test]
fn levels_are_set_by_step_and_listed_by_name() {
    let ev = EventFullAchievementInfo {
        completed_achievement_ids: vec![1, 0, 9, -1, 3],
        active_achievement_ids: vec![2, 1, 0],
        active_achievement_levels: vec![5, 7, 0],
    };
    let levels = achievement_levels(&ev, &table());
    assert_eq!(
        levels,
        vec![("A".to_string(), 1), ("B".to_string(), 7), ("C".to_string(), 5), ("b".to_string(), 4)]
    );
    assert_eq!(levels.len(), 4);
}

#[test]
fn nothing_to_export() {
    let ev = EventFullAchievementInfo {
        completed_achievement_ids: vec![7],
        active_achievement_ids: vec![0],
        active_achievement_levels: vec![],
    };
    assert!(achievement_levels(&ev, &table()).is_empty());
}

#[test]
fn levels_as_pretty_json() {
    let levels = vec![("A".to_string(), 1), ("B".to_string(), 7), ("b".to_string(), 4)];
    let json = levels_json(&levels).unwrap();
    assert_eq!(json, "{\n  \"A\": 1,\n  \"B\": 7,\n  \"b\": 4\n}");
    assert_eq!(levels_json(&Vec::new()).unwrap(), "{}");
}
