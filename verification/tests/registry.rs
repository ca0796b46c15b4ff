use elgato_keylight::avahi::{
    resolve_devices, AvahiState, Device, DiscoverError, SharedAvahiState,
};
use elgato_keylight::avahi_browse::parse_packets;
use elgato_keylight::MdnsPacket;

fn resolved_line(name: &str, ip: &str, port: u16) -> String {
    format!("=;enp6s0;IPv4;{};_elg._tcp;local;{}.local;{};{}", name, name, ip, port)
}

fn resolved(name: &str, ip: &str, port: u16) -> MdnsPacket {
    MdnsPacket::try_from(resolved_line(name, ip, port)).unwrap()
}

fn exited(name: &str) -> MdnsPacket {
    MdnsPacket::try_from(format!("-;enp6s0;IPv4;{};_elg._tcp;local", name)).unwrap()
}

fn new_packet(name: &str) -> MdnsPacket {
    MdnsPacket::try_from(format!("+;enp6s0;IPv4;{};_elg._tcp;local", name)).unwrap()
}

fn names(state: &AvahiState) -> Vec<String> {
    state.devices.iter().map(|d| d.name.clone()).collect()
}

#[test]
fn device_from_resolved_packet() {
    let dev = Device::from_packet(resolved("light-a", "192.168.0.92", 9123))
        .unwrap()
        .unwrap();
    assert_eq!(dev.name, "light-a");
    assert_eq!(dev.display_string(), "light-a => http://192.168.0.92:9123/");
}

#[test]
fn device_from_other_packets_is_none() {
    assert_eq!(Device::from_packet(new_packet("light-a")).unwrap(), None);
    assert_eq!(Device::from_packet(exited("light-a")).unwrap(), None);
}

#[test]
fn device_from_bare_v6_address_fails() {
    // without brackets the address's colons run into the port: no device
    let packet = MdnsPacket::try_from(
        "=;enp6s0;IPv6;light-a;_elg._tcp;local;light-a.local;fe80::3e6a:9dff:fe21:b16;9123"
            .to_string(),
    )
    .unwrap();
    assert!(Device::from_packet(packet).is_err());
}

#[test]
fn device_equality_is_by_name_alone() {
    let a1 = Device::from_packet(resolved("light-a", "192.168.0.92", 9123))
        .unwrap()
        .unwrap();
    let a2 = Device::from_packet(resolved("light-a", "10.0.0.7", 80)).unwrap().unwrap();
    let b = Device::from_packet(resolved("light-b", "192.168.0.92", 9123))
        .unwrap()
        .unwrap();
    assert_eq!(a1, a2);
    assert_ne!(a1, b);
}

#[test]
fn registry_new_announcement_is_noop() {
    let mut state = AvahiState { devices: vec![] };
    state.process_packet(new_packet("light-a")).unwrap();
    assert!(state.devices.is_empty());
}

#[test]
fn registry_idempotent_on_repeated_resolve() {
    let mut state = AvahiState { devices: vec![] };
    state.process_packet(resolved("light-a", "192.168.0.92", 9123)).unwrap();
    state.process_packet(resolved("light-a", "192.168.0.92", 9123)).unwrap();
    assert_eq!(names(&state), vec!["light-a".to_string()]);
}

#[test]
fn registry_keeps_first_device_on_rename_of_address() {
    let mut state = AvahiState { devices: vec![] };
    state.process_packet(resolved("light-a", "192.168.0.92", 9123)).unwrap();
    state.process_packet(resolved("light-a", "10.0.0.7", 80)).unwrap();
    assert_eq!(state.devices.len(), 1);
    assert_eq!(
        state.devices[0].display_string(),
        "light-a => http://192.168.0.92:9123/"
    );
}

#[test]
fn registry_removes_exactly_the_exited_name() {
    // regression for the exit transition: the device whose name equals the
    // exiting hostname goes, every other device stays
    let mut state = AvahiState { devices: vec![] };
    state.process_packet(resolved("light-a", "192.168.0.92", 9123)).unwrap();
    state.process_packet(resolved("light-b", "192.168.0.93", 9123)).unwrap();
    state.process_packet(resolved("light-c", "192.168.0.94", 9123)).unwrap();
    state.process_packet(exited("light-b")).unwrap();
    assert_eq!(
        names(&state),
        vec!["light-a".to_string(), "light-c".to_string()]
    );
}

#[test]
fn registry_exit_of_absent_name_is_noop() {
    let mut state = AvahiState { devices: vec![] };
    state.process_packet(resolved("light-a", "192.168.0.92", 9123)).unwrap();
    state.process_packet(exited("light-z")).unwrap();
    assert_eq!(names(&state), vec!["light-a".to_string()]);
}

#[test]
fn parse_packets_decodes_every_line() {
    let lines = vec![
        "+;enp6s0;IPv4;light-a;_elg._tcp;local".to_string(),
        resolved_line("light-a", "192.168.0.92", 9123),
    ];
    let packets = parse_packets(&lines).unwrap();
    assert_eq!(packets.len(), 2);
}

#[test]
fn parse_packets_fails_the_whole_batch_on_one_bad_line() {
    let lines = vec![
        resolved_line("light-a", "192.168.0.92", 9123),
        "?;bad".to_string(),
        resolved_line("light-b", "192.168.0.93", 9123),
    ];
    assert!(parse_packets(&lines).is_err());
}

#[test]
fn snapshot_deduplicates_by_name() {
    let packets = vec![
        resolved("light-a", "192.168.0.92", 9123),
        new_packet("light-a"),
        resolved("light-a", "10.0.0.7", 80),
        resolved("light-b", "192.168.0.93", 9123),
    ];
    let devices = resolve_devices(packets).unwrap();
    let got: Vec<String> = devices.iter().map(|d| d.name.clone()).collect();
    assert_eq!(got, vec!["light-a".to_string(), "light-b".to_string()]);
}

#[test]
fn snapshot_fails_when_a_device_cannot_be_resolved() {
    let bad = MdnsPacket::try_from(
        "=;enp6s0;IPv6;light-a;_elg._tcp;local;light-a.local;fe80::1;9123".to_string(),
    )
    .unwrap();
    let packets = vec![resolved("light-b", "192.168.0.93", 9123), bad];
    assert!(resolve_devices(packets).is_err());
}

#[test]
fn shared_registry_applies_lines_and_snapshots() {
    let shared = SharedAvahiState::new(vec![]);
    shared.apply_line(resolved_line("light-a", "192.168.0.92", 9123)).unwrap();
    shared.apply_line(resolved_line("light-a", "192.168.0.92", 9123)).unwrap();
    shared.apply_line(resolved_line("light-b", "192.168.0.93", 9123)).unwrap();
    let devices = shared.devices();
    let got: Vec<String> = devices.iter().map(|d| d.name.clone()).collect();
    assert_eq!(got, vec!["light-a".to_string(), "light-b".to_string()]);

    shared.apply(exited("light-a")).unwrap();
    let devices = shared.devices();
    let got: Vec<String> = devices.iter().map(|d| d.name.clone()).collect();
    assert_eq!(got, vec!["light-b".to_string()]);
}

#[test]
fn shared_registry_reports_decode_errors() {
    let shared = SharedAvahiState::new(vec![]);
    let err = shared.apply_line("?;bad".to_string()).unwrap_err();
    assert!(matches!(err, DiscoverError::Parse(_)));
    assert!(shared.devices().is_empty());
}

#[test]
fn shared_registry_seed_drops_duplicate_names() {
    let a = Device::from_packet(resolved("light-a", "192.168.0.92", 9123))
        .unwrap()
        .unwrap();
    let a2 = Device::from_packet(resolved("light-a", "10.0.0.7", 80)).unwrap().unwrap();
    let b = Device::from_packet(resolved("light-b", "192.168.0.93", 9123))
        .unwrap()
        .unwrap();
    let shared = SharedAvahiState::new(vec![a, a2, b]);
    let got: Vec<String> = shared.devices().iter().map(|d| d.name.clone()).collect();
    assert_eq!(got, vec!["light-a".to_string(), "light-b".to_string()]);
}
