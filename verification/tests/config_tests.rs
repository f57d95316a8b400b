use route53_ip_update::addr::IpAddress;
use route53_ip_update::config::{
    ArgOverrides, Config, HostnameAndTtlConfig, HostnameConfig, Route53ZoneConfig,
};
use route53_ip_update::error::Route53IpUpdateError;
use route53_ip_update::query_address_type::QueryAddressType;
use route53_ip_update::ttl::Ttl;
use route53_ip_update::zone::{effective_zone_ttl, resolve_ttl};

fn no_overrides() -> ArgOverrides {
    ArgOverrides {
        address_type: None,
        allow_nonroutable: None,
        query_interfaces: None,
        query_ip_service: None,
        ignore_interfaces: vec![],
        ip_service: None,
        timeout_ms: None,
        ttl: None,
        route53_zone: None,
        hostnames: vec![],
    }
}

#[test]
fn empty_config_reports_missing_zones() {
    let config = Config::default();
    let err = config.check().unwrap_err();
    assert_eq!(
        err,
        Route53IpUpdateError::InvalidConfig(vec![
            "No Route 53 zones have been configured.".to_string()
        ])
    );
}

#[test]
fn zone_without_hostnames_is_named_in_the_message() {
    let mut config = Config::default();
    config.route53_zones.push(Route53ZoneConfig {
        zone_id: "Z1".to_string(),
        hostnames: vec![],
        ttl: None,
    });
    let err = config.check().unwrap_err();
    assert_eq!(
        err,
        Route53IpUpdateError::InvalidConfig(vec![
            "No hostnames have been configured for zone Z1.".to_string()
        ])
    );
}

#[test]
fn empty_ip_service_is_rejected_when_queried() {
    let mut config = Config::default();
    config.ip_service = String::new();
    config.route53_zones.push(Route53ZoneConfig {
        zone_id: "Z1".to_string(),
        hostnames: vec![HostnameConfig::HostnameOnly("h.example.".to_string())],
        ttl: None,
    });
    let err = config.check().unwrap_err();
    assert_eq!(
        err,
        Route53IpUpdateError::InvalidConfig(vec![
            "The IP service cannot be empty if querying the IP service is enabled.".to_string()
        ])
    );
    config.query_ip_service = false;
    assert!(config.check().is_ok());
}

#[test]
fn overrides_replace_and_zone_gains_hostnames() {
    let mut config = Config::default();
    let mut args = no_overrides();
    args.address_type = Some(QueryAddressType::Ipv6);
    args.allow_nonroutable = Some(true);
    args.query_interfaces = Some(true);
    args.ignore_interfaces = vec!["docker0".to_string()];
    args.ip_service = Some("https://example.test/".to_string());
    args.timeout_ms = Some(2500);
    args.ttl = Some(Ttl::from_seconds(600));
    args.route53_zone = Some("Z42".to_string());
    args.hostnames = vec!["a.example.".to_string(), "a.example.".to_string(), "b.example.".to_string()];
    config.update_from_args(args);
    assert_eq!(config.address_type, QueryAddressType::Ipv6);
    assert!(config.allow_nonroutable);
    assert!(config.query_interfaces);
    assert_eq!(config.ignore_interfaces, Some(vec!["docker0".to_string()]));
    assert_eq!(config.ip_service, "https://example.test/");
    assert_eq!(config.timeout_ms, 2500);
    assert_eq!(config.ttl, Some(Ttl::from_seconds(600)));
    assert_eq!(
        config.route53_zones,
        vec![Route53ZoneConfig {
            zone_id: "Z42".to_string(),
            hostnames: vec![
                HostnameConfig::HostnameOnly("a.example.".to_string()),
                HostnameConfig::HostnameOnly("b.example.".to_string()),
            ],
            ttl: Some(Ttl::from_seconds(600)),
        }]
    );
    assert!(config.check().is_ok());
}

#[test]
fn existing_zone_is_reused_by_identifier() {
    let mut config = Config::default();
    config.route53_zones.push(Route53ZoneConfig {
        zone_id: "Z1".to_string(),
        hostnames: vec![HostnameConfig::HostnameOnly("old.example.".to_string())],
        ttl: None,
    });
    let idx = config.get_or_create_zone_config("Z1");
    assert_eq!(idx, 0);
    assert_eq!(config.route53_zones.len(), 1);
    let idx2 = config.get_or_create_zone_config("Z2");
    assert_eq!(idx2, 1);
    assert_eq!(config.route53_zones.len(), 2);
    assert_eq!(config.route53_zones[1].zone_id, "Z2");
    assert!(config.route53_zones[1].hostnames.is_empty());
}

#[test]
fn interface_filter_honours_ignore_list() {
    let mut config = Config::default();
    assert!(config.allows_interface("eth0"));
    config.ignore_interfaces = Some(vec!["docker0".to_string(), "lo".to_string()]);
    assert!(config.allows_interface("eth0"));
    assert!(!config.allows_interface("docker0"));
    assert!(!config.allows_interface("lo"));
}

#[test]
fn address_filter_combines_routability_and_family() {
    let mut config = Config::default();
    let public4 = IpAddress::from_octets(8, 8, 8, 8);
    let private4 = IpAddress::from_octets(10, 0, 0, 1);
    assert!(config.allows_address(&public4));
    assert!(!config.allows_address(&private4));
    config.allow_nonroutable = true;
    assert!(config.allows_address(&private4));
    config.address_type = QueryAddressType::Ipv6;
    assert!(!config.allows_address(&public4));
    assert!(config.allows_address(&IpAddress::V6(0x20010df8000000000000000000000001)));
}

#[test]
fn query_address_type_round_trips() {
    assert_eq!(QueryAddressType::from_str("both").unwrap(), QueryAddressType::Both);
    assert_eq!(QueryAddressType::from_str("ipv4").unwrap(), QueryAddressType::Ipv4);
    assert_eq!(QueryAddressType::from_str("ipv6").unwrap(), QueryAddressType::Ipv6);
    assert_eq!(QueryAddressType::Ipv4.as_str(), "ipv4");
    assert_eq!(
        QueryAddressType::from_str("all").unwrap_err(),
        Route53IpUpdateError::InvalidQueryAddressType("all".to_string())
    );
    assert_eq!(QueryAddressType::default(), QueryAddressType::Both);
}

#[test]
fn ttl_precedence_is_hostname_zone_global_fallback() {
    let bare = HostnameConfig::HostnameOnly("h.example.".to_string());
    let with_ttl = HostnameConfig::HostnameAndTtl(HostnameAndTtlConfig {
        hostname: "h.example.".to_string(),
        ttl: Ttl::from_seconds(60),
    });
    let zone = Some(Ttl::from_seconds(120));
    let global = Some(Ttl::from_seconds(240));
    assert_eq!(resolve_ttl(&with_ttl, zone, global).seconds(), 60);
    assert_eq!(resolve_ttl(&bare, zone, global).seconds(), 120);
    assert_eq!(resolve_ttl(&bare, None, global).seconds(), 240);
    assert_eq!(resolve_ttl(&bare, None, None).seconds(), 300);
}

#[test]
fn zone_ttl_overrides_global_default() {
    let zone = Route53ZoneConfig {
        zone_id: "Z1".to_string(),
        hostnames: vec![],
        ttl: Some(Ttl::from_seconds(42)),
    };
    assert_eq!(effective_zone_ttl(&zone, Some(Ttl::from_seconds(7))), Some(Ttl::from_seconds(42)));
    let no_ttl = Route53ZoneConfig { zone_id: "Z1".to_string(), hostnames: vec![], ttl: None };
    assert_eq!(effective_zone_ttl(&no_ttl, Some(Ttl::from_seconds(7))), Some(Ttl::from_seconds(7)));
}

#[test]
fn hostname_accessors_expose_name_and_ttl() {
    let bare = HostnameConfig::HostnameOnly("a.example.".to_string());
    assert_eq!(bare.get_hostname(), "a.example.");
    assert_eq!(bare.get_ttl(), None);
    let with_ttl = HostnameConfig::HostnameAndTtl(HostnameAndTtlConfig {
        hostname: "b.example.".to_string(),
        ttl: Ttl::from_seconds(90),
    });
    assert_eq!(with_ttl.get_hostname(), "b.example.");
    assert_eq!(with_ttl.get_ttl(), Some(Ttl::from_seconds(90)));
}

#[test]
fn error_messages_carry_their_context() {
    assert_eq!(
        Route53IpUpdateError::InvalidIpAddr("zz".to_string()).message(),
        "Invalid IP address: zz"
    );
    assert_eq!(
        Route53IpUpdateError::MissingExpectedAwsReplyField("Id".to_string()).message(),
        "AWS reply is missing expected field: Id"
    );
    assert_eq!(
        Route53IpUpdateError::UnexpectedRoute53Status("REVERTED".to_string()).message(),
        "Unexpected Route 53 change status reported: REVERTED"
    );
    assert_eq!(
        Route53IpUpdateError::InvalidConfig(vec!["a".to_string(), "b".to_string()]).message(),
        "Invalid configuration: a b"
    );
    assert_eq!(
        Route53IpUpdateError::UnknownConfigFileExt(Some("ini".to_string())).message(),
        "Unknown extension for configuration file: ini"
    );
    assert_eq!(
        Route53IpUpdateError::UnknownConfigFileExt(None).message(),
        "Configuration file has no extension"
    );
}
