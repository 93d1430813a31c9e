//! The embedding facade: settings, addresses and the advertisement.

use openairplay1::net::IpAddr;
use openairplay1::receiver::Receiver;

#[test]
fn build_applies_defaults_and_overrides() {
    let receiver = Receiver::builder()
        .mac([0xaa, 0xbb, 0xcc, 0xdd, 0xee, 0xff])
        .build(None);
    let config = receiver.config();
    assert_eq!(config.name, "OpenAirPlay");
    assert_eq!(config.port, 5000);
    assert_eq!(config.mac_hex(), "AABBCCDDEEFF");
    assert_eq!(config.service_name(), "AABBCCDDEEFF@OpenAirPlay");

    let receiver = Receiver::builder()
        .name("Living Room")
        .port(5001)
        .mac([0xaa, 0xbb, 0xcc, 0xdd, 0xee, 0xff])
        .advertise(false)
        .password("4321")
        .build(None);
    assert_eq!(receiver.config().name, "Living Room");
    assert_eq!(receiver.config().port, 5001);
    assert_eq!(receiver.config().password.as_deref(), Some("4321"));
    assert!(!receiver.advertises());
}

#[test]
fn password_defaults_to_none() {
    let receiver = Receiver::builder().build(None);
    assert_eq!(receiver.config().password, None);
}

#[test]
fn txt_records_match_shairport_classic_mode() {
    let receiver = Receiver::builder().build(None);
    let records = receiver.txt_records();
    assert!(records.iter().any(|r| r == "txtvers=1"));
    assert!(records.iter().any(|r| r == "cn=0,1"));
    assert!(records.iter().any(|r| r == "sr=44100"));
    assert!(records.iter().any(|r| r == "et=0,1"));
    // No password: the receiver is advertised as open.
    assert!(records.iter().any(|r| r == "pw=false"));
    assert!(!records.iter().any(|r| r.starts_with("pw=true")));
}

#[test]
fn txt_records_advertise_protection_when_password_set() {
    let receiver = Receiver::builder().password("1234").build(None);
    let records = receiver.txt_records();
    assert!(records.iter().any(|r| r == "pw=true"));
    assert!(!records.iter().any(|r| r == "pw=false"));
    // The password itself is never in the advertisement.
    assert!(!records.iter().any(|r| r.contains("1234")));
}

#[test]
fn the_mac_is_given_discovered_or_fixed() {
    let discovered = [1, 2, 3, 4, 5, 6];
    let receiver = Receiver::builder().build(Some(discovered));
    assert_eq!(receiver.config().mac, discovered);
    let receiver = Receiver::builder().mac([9; 6]).build(Some(discovered));
    assert_eq!(receiver.config().mac, [9; 6]);
    let receiver = Receiver::builder().build(None);
    assert_eq!(receiver.config().mac_hex(), "024F41503100");
}

#[test]
fn the_service_is_registered_as_configured() {
    let receiver = Receiver::builder().name("Office").port(5002).mac([0xab; 6]).build(None);
    let service = receiver.service().unwrap();
    assert_eq!(service.name, "ABABABABABAB@Office");
    assert_eq!(service.kind, "_raop._tcp");
    assert_eq!((service.interface, service.protocol, service.flags), (-1, -1, 0));
    assert_eq!(service.port, 5002);
    assert_eq!((service.domain.as_str(), service.host.as_str()), ("", ""));
    let txt: Vec<String> = service
        .txt
        .iter()
        .map(|r| String::from_utf8(r.clone()).unwrap())
        .collect();
    assert_eq!(txt, receiver.txt_records());
    assert_eq!(txt.len(), 16);
    assert!(Receiver::builder().advertise(false).build(None).service().is_none());
}

#[test]
fn addresses_know_what_they_are() {
    let v4 = IpAddr::V4([1, 2, 3, 4]);
    let mut mapped = [0u8; 16];
    mapped[10] = 0xff;
    mapped[11] = 0xff;
    mapped[12..].copy_from_slice(&[1, 2, 3, 4]);
    let v6 = [0xfe; 16];
    assert_eq!(v4.significant_octets(), vec![1, 2, 3, 4]);
    assert_eq!(IpAddr::V6(mapped).significant_octets(), vec![1, 2, 3, 4]);
    assert_eq!(IpAddr::V6(v6).significant_octets(), v6.to_vec());
    assert!(IpAddr::V4([0; 4]).is_unspecified());
    assert!(IpAddr::V6([0; 16]).is_unspecified());
    assert!(!v4.is_unspecified());
    assert_eq!(IpAddr::V6([0; 16]).bind_address(), IpAddr::V4([0; 4]));
    assert_eq!(v4.bind_address(), v4);
}
