use route53_ip_update::addr::IpAddress;
use route53_ip_update::diff::diff_hostname;
use route53_ip_update::error::Route53IpUpdateError;
use route53_ip_update::records::{Change, RecordSet, RecordType};

fn record(
    name: &str,
    rtype: Option<RecordType>,
    ttl: Option<i64>,
    set_identifier: Option<&str>,
    values: &[&str],
) -> RecordSet {
    RecordSet {
        name: name.to_string(),
        rtype,
        ttl,
        set_identifier: set_identifier.map(|s| s.to_string()),
        values: values.iter().map(|v| v.to_string()).collect(),
    }
}

fn v4(a: u8, b: u8, c: u8, d: u8) -> IpAddress {
    IpAddress::from_octets(a, b, c, d)
}

#[test]
fn matching_record_yields_no_changes() {
    let existing = vec![record("host.example.", Some(RecordType::A), Some(300), None, &["1.1.1.1"])];
    let desired = vec![v4(1, 1, 1, 1)];
    let changes = diff_hostname(&existing, "host.example.", &desired, &vec![], 300).unwrap();
    assert_eq!(changes, vec![]);
}

#[test]
fn changed_value_and_ttl_is_upserted_in_place() {
    let existing = vec![record("host.example.", Some(RecordType::A), Some(60), None, &["1.1.1.1"])];
    let desired = vec![v4(2, 2, 2, 2)];
    let changes = diff_hostname(&existing, "host.example.", &desired, &vec![], 300).unwrap();
    assert_eq!(
        changes,
        vec![Change::Upsert {
            rtype: RecordType::A,
            name: "host.example.".to_string(),
            ttl: 300,
            addresses: vec![v4(2, 2, 2, 2)],
        }]
    );
}

#[test]
fn foreign_record_is_deleted_and_fresh_record_created() {
    let foreign =
        record("host.example.", Some(RecordType::A), Some(300), Some("weighted"), &["9.9.9.9"]);
    let existing = vec![foreign.clone()];
    let desired = vec![v4(2, 2, 2, 2)];
    let changes = diff_hostname(&existing, "host.example.", &desired, &vec![], 300).unwrap();
    assert_eq!(
        changes,
        vec![
            Change::Delete { record: foreign },
            Change::Upsert {
                rtype: RecordType::A,
                name: "host.example.".to_string(),
                ttl: 300,
                addresses: vec![v4(2, 2, 2, 2)],
            },
        ]
    );
}

#[test]
fn cname_is_deleted_even_with_nothing_desired() {
    let cname =
        record("host.example.", Some(RecordType::Cname), Some(300), None, &["other.example."]);
    let existing = vec![cname.clone()];
    let changes = diff_hostname(&existing, "host.example.", &vec![], &vec![], 300).unwrap();
    assert_eq!(changes, vec![Change::Delete { record: cname }]);
}

#[test]
fn two_stale_records_one_upsert_rest_deleted() {
    let first = record("host.example.", Some(RecordType::A), Some(60), None, &["3.3.3.3"]);
    let second = record("host.example.", Some(RecordType::A), Some(60), None, &["4.4.4.4"]);
    let existing = vec![first, second.clone()];
    let desired = vec![v4(2, 2, 2, 2)];
    let changes = diff_hostname(&existing, "host.example.", &desired, &vec![], 300).unwrap();
    assert_eq!(changes.len(), 2);
    assert_eq!(
        changes[0],
        Change::Upsert {
            rtype: RecordType::A,
            name: "host.example.".to_string(),
            ttl: 300,
            addresses: vec![v4(2, 2, 2, 2)],
        }
    );
    assert_eq!(changes[1], Change::Delete { record: second });
}

#[test]
fn create_when_absent_per_family() {
    let existing = vec![];
    let desired4 = vec![v4(2, 2, 2, 2)];
    let desired6 = vec![IpAddress::V6(1)];
    let changes = diff_hostname(&existing, "host.example.", &desired4, &desired6, 120).unwrap();
    assert_eq!(
        changes,
        vec![
            Change::Upsert {
                rtype: RecordType::A,
                name: "host.example.".to_string(),
                ttl: 120,
                addresses: vec![v4(2, 2, 2, 2)],
            },
            Change::Upsert {
                rtype: RecordType::Aaaa,
                name: "host.example.".to_string(),
                ttl: 120,
                addresses: vec![IpAddress::V6(1)],
            },
        ]
    );
}

#[test]
fn empty_desired_and_no_records_is_a_no_op() {
    let existing =
        vec![record("host.example.", Some(RecordType::Other), Some(300), None, &["txt"])];
    let changes = diff_hostname(&existing, "host.example.", &vec![], &vec![], 300).unwrap();
    assert_eq!(changes, vec![]);
}

#[test]
fn empty_desired_deletes_existing_family_record() {
    let stale = record("host.example.", Some(RecordType::A), Some(300), None, &["1.1.1.1"]);
    let existing = vec![stale.clone()];
    let changes = diff_hostname(&existing, "host.example.", &vec![], &vec![], 300).unwrap();
    assert_eq!(changes, vec![Change::Delete { record: stale }]);
}

#[test]
fn values_compared_as_sets_regardless_of_order() {
    let existing = vec![record(
        "host.example.",
        Some(RecordType::A),
        Some(300),
        None,
        &["2.2.2.2", "1.1.1.1"],
    )];
    let desired = vec![v4(1, 1, 1, 1), v4(2, 2, 2, 2)];
    let changes = diff_hostname(&existing, "host.example.", &desired, &vec![], 300).unwrap();
    assert_eq!(changes, vec![]);
}

#[test]
fn unparsable_value_fails_with_invalid_ip_addr() {
    let existing =
        vec![record("host.example.", Some(RecordType::A), Some(300), None, &["not-an-ip"])];
    let err = diff_hostname(&existing, "host.example.", &vec![v4(1, 1, 1, 1)], &vec![], 300)
        .unwrap_err();
    assert_eq!(err, Route53IpUpdateError::InvalidIpAddr("not-an-ip".to_string()));
}

#[test]
fn wrong_family_value_fails_with_invalid_ip_addr() {
    let existing = vec![record("host.example.", Some(RecordType::A), Some(300), None, &["::1"])];
    let err = diff_hostname(&existing, "host.example.", &vec![v4(1, 1, 1, 1)], &vec![], 300)
        .unwrap_err();
    assert_eq!(err, Route53IpUpdateError::InvalidIpAddr("::1".to_string()));
}

#[test]
fn missing_record_type_is_a_protocol_violation() {
    let existing = vec![record("host.example.", None, Some(300), None, &["1.1.1.1"])];
    let err = diff_hostname(&existing, "host.example.", &vec![v4(1, 1, 1, 1)], &vec![], 300)
        .unwrap_err();
    assert_eq!(err, Route53IpUpdateError::MissingExpectedAwsReplyField("Type".to_string()));
}

#[test]
fn matching_aaaa_with_stale_a_touches_only_a() {
    let stale_a = record("host.example.", Some(RecordType::A), Some(60), None, &["1.1.1.1"]);
    let good_aaaa = record("host.example.", Some(RecordType::Aaaa), Some(300), None, &["::1"]);
    let existing = vec![stale_a, good_aaaa];
    let desired4 = vec![v4(2, 2, 2, 2)];
    let desired6 = vec![IpAddress::V6(1)];
    let changes = diff_hostname(&existing, "host.example.", &desired4, &desired6, 300).unwrap();
    assert_eq!(
        changes,
        vec![Change::Upsert {
            rtype: RecordType::A,
            name: "host.example.".to_string(),
            ttl: 300,
            addresses: vec![v4(2, 2, 2, 2)],
        }]
    );
}
