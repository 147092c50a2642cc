use albion_packets::utils::{decode_character_id, normalize_event_code, normalize_operation_code};

#[test]
fn character_id_as_uuid() {
    let bytes: Vec<u8> = (0u8..16).collect();
    assert_eq!(decode_character_id(&bytes), "03020100-0504-0706-0809-0a0b0c0d0e0f");
    let id = decode_character_id(&[0xFF; 16]);
    assert_eq!(id.len(), 36);
    assert_eq!(&id[8..9], "-");
    assert_eq!(&id[23..24], "-");
}

#[test]
fn character_id_of_other_length() {
    assert_eq!(decode_character_id(&[0x0a, 0xff, 0x00]), "[a, ff, 0]");
    assert_eq!(decode_character_id(&[]), "[]");
    assert_eq!(decode_character_id(&[0x10]), "[10]");
}

#[test]
fn operation_codes() {
    assert_eq!(normalize_operation_code(100), 100);
    assert_eq!(normalize_operation_code(539), 539);
    assert_eq!(normalize_operation_code(0x1401), 0x0114);
    assert_eq!(normalize_operation_code(0xFFFF), 0xFFFF);
    assert_eq!(normalize_operation_code(540), 540);
}

#[test]
fn event_codes() {
    assert_eq!(normalize_event_code(680), 680);
    assert_eq!(normalize_event_code(700), 700);
    assert_eq!(normalize_event_code(0x0C00), 12);
}

#[test]
fn normalizing_twice_changes_nothing() {
    for code in [0u16, 1, 539, 540, 0x0C00, 0x1401, 0x2A02, 0xFFFF, 0x8000] {
        let once = normalize_operation_code(code);
        assert_eq!(normalize_operation_code(once), once);
        assert!(once <= 539 || once == code);
        let once = normalize_event_code(code);
        assert_eq!(normalize_event_code(once), once);
    }
}
