use albion_packets::devices::{find_physical_devices, first_active_device, first_non_loopback_device, DeviceInfo};

fn dev(name: &str, has_addresses: bool) -> DeviceInfo {
    DeviceInfo { name: name.to_string(), has_addresses }
}

#[test]
fn physical_devices_skip_loopback_and_unaddressed() {
    let devices = vec![dev("lo", true), dev("eth0", false), dev("LO0", true), dev("wlan0", true), dev("Lo", true), dev("en1", true)];
    assert_eq!(find_physical_devices(&devices), vec![3, 5]);
    assert!(find_physical_devices(&Vec::new()).is_empty());
}

#[test]
fn active_device_matches_names_exactly() {
    let devices = vec![dev("lo0", true), dev("eth0", false), dev("LO", true), dev("wlan0", true)];
    assert_eq!(first_active_device(&devices), Some(2));
    assert_eq!(first_active_device(&vec![dev("lo", true), dev("eth0", false)]), None);
}

#[test]
fn first_device_that_is_no_loopback() {
    assert_eq!(first_non_loopback_device(&vec![dev("lo", true), dev("lo0", false), dev("eth0", false)]), Some(2));
    assert_eq!(first_non_loopback_device(&vec![dev("lo", true), dev("lo0", false)]), None);
}
