use route53_ip_update::addr::IpAddress;
use route53_ip_update::config::Config;
use route53_ip_update::discovery::{addresses_from_interfaces, partition_discovered, InterfaceAddresses};
use route53_ip_update::zone::{change_batch_comment, overall_success, ZoneOutcome};
use route53_ip_update::config::HostnameConfig;

#[test]
fn partition_splits_deduplicates_and_filters() {
    let config = Config::default();
    let pub1 = IpAddress::from_octets(8, 8, 8, 8);
    let pub2 = IpAddress::from_octets(9, 9, 9, 9);
    let private = IpAddress::from_octets(10, 0, 0, 1);
    let v6 = IpAddress::V6(0x20010df8000000000000000000000001);
    let discovered = vec![pub1, private, pub2, pub1, v6, v6];
    let (v4s, v6s) = partition_discovered(&config, &discovered);
    assert_eq!(v4s, vec![pub1, pub2]);
    assert_eq!(v6s, vec![v6]);
}

#[test]
fn partition_keeps_nonroutable_when_allowed() {
    let mut config = Config::default();
    config.allow_nonroutable = true;
    let private = IpAddress::from_octets(192, 168, 1, 10);
    let (v4s, v6s) = partition_discovered(&config, &vec![private]);
    assert_eq!(v4s, vec![private]);
    assert!(v6s.is_empty());
}

#[test]
fn ignored_interfaces_contribute_no_addresses() {
    let mut config = Config::default();
    config.ignore_interfaces = Some(vec!["docker0".to_string()]);
    config.allow_nonroutable = true;
    let interfaces = vec![
        InterfaceAddresses {
            name: "eth0".to_string(),
            addresses: vec![IpAddress::from_octets(8, 8, 8, 8)],
        },
        InterfaceAddresses {
            name: "docker0".to_string(),
            addresses: vec![IpAddress::from_octets(172, 17, 0, 1)],
        },
    ];
    let gathered = addresses_from_interfaces(&config, &interfaces);
    assert_eq!(gathered, vec![IpAddress::from_octets(8, 8, 8, 8)]);
}

#[test]
fn batch_comment_lists_the_hostnames() {
    let hostnames = vec![
        HostnameConfig::HostnameOnly("a.example.".to_string()),
        HostnameConfig::HostnameOnly("b.example.".to_string()),
    ];
    assert_eq!(change_batch_comment(&hostnames), "Route 53 update for a.example. b.example.");
    assert_eq!(change_batch_comment(&vec![]), "Route 53 update for ");
}

#[test]
fn run_outcome_is_failure_exactly_when_a_zone_failed() {
    assert!(overall_success(&vec![]));
    assert!(overall_success(&vec![ZoneOutcome::NoChangesNeeded, ZoneOutcome::Succeeded]));
    assert!(!overall_success(&vec![
        ZoneOutcome::Succeeded,
        ZoneOutcome::Failed("listing failed".to_string()),
    ]));
}
