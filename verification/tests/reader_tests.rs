use route53_ip_update::error::Route53IpUpdateError;
use route53_ip_update::reader::{normalize_hostname, process_page, read_record_sets, ListPage, PageOutcome};
use route53_ip_update::records::{RecordSet, RecordType};

fn a_record(name: &str, value: &str) -> RecordSet {
    RecordSet {
        name: name.to_string(),
        rtype: Some(RecordType::A),
        ttl: Some(300),
        set_identifier: None,
        values: vec![value.to_string()],
    }
}

#[test]
fn normalization_appends_the_trailing_dot_once() {
    assert_eq!(normalize_hostname("host.example"), "host.example.");
    assert_eq!(normalize_hostname("host.example."), "host.example.");
    assert_eq!(normalize_hostname(""), ".");
}

#[test]
fn page_keeps_records_up_to_the_first_other_name() {
    let host = "host.example.".to_string();
    let mine = a_record("host.example.", "1.1.1.1");
    let other = a_record("zzz.example.", "2.2.2.2");
    let page = ListPage {
        records: vec![mine.clone(), other],
        truncated: true,
        next_name: Some("zzz.example.".to_string()),
        next_type: Some(RecordType::A),
    };
    match process_page(&page, &host) {
        PageOutcome::Finished(kept) => assert_eq!(kept, vec![mine]),
        outcome => panic!("unexpected outcome: {outcome:?}"),
    }
}

#[test]
fn truncated_page_hands_back_the_cursor() {
    let host = "host.example.".to_string();
    let mine = a_record("host.example.", "1.1.1.1");
    let page = ListPage {
        records: vec![mine.clone()],
        truncated: true,
        next_name: Some("host.example.".to_string()),
        next_type: Some(RecordType::Aaaa),
    };
    match process_page(&page, &host) {
        PageOutcome::Continue(kept, name, rtype) => {
            assert_eq!(kept, vec![mine]);
            assert_eq!(name, "host.example.");
            assert_eq!(rtype, RecordType::Aaaa);
        },
        outcome => panic!("unexpected outcome: {outcome:?}"),
    }
}

#[test]
fn truncated_page_without_cursor_is_a_protocol_violation() {
    let host = "host.example.".to_string();
    let page = ListPage {
        records: vec![a_record("host.example.", "1.1.1.1")],
        truncated: true,
        next_name: None,
        next_type: None,
    };
    match process_page(&page, &host) {
        PageOutcome::Failed(e) => assert_eq!(
            e,
            Route53IpUpdateError::MissingExpectedAwsReplyField("NextRecordName".to_string())
        ),
        outcome => panic!("unexpected outcome: {outcome:?}"),
    }
}

#[test]
fn pagination_accumulates_across_pages() {
    let host = "host.example.".to_string();
    let first = a_record("host.example.", "1.1.1.1");
    let second = a_record("host.example.", "2.2.2.2");
    let pages = vec![
        ListPage {
            records: vec![first.clone()],
            truncated: true,
            next_name: Some("host.example.".to_string()),
            next_type: Some(RecordType::Aaaa),
        },
        ListPage {
            records: vec![second.clone()],
            truncated: false,
            next_name: None,
            next_type: None,
        },
    ];
    let records = read_record_sets(&pages, &host).unwrap().unwrap();
    assert_eq!(records, vec![first, second]);
}

#[test]
fn pagination_stops_at_the_next_name_even_when_truncated() {
    let host = "host.example.".to_string();
    let mine = a_record("host.example.", "1.1.1.1");
    let pages = vec![ListPage {
        records: vec![mine.clone(), a_record("other.example.", "3.3.3.3")],
        truncated: true,
        next_name: Some("other.example.".to_string()),
        next_type: Some(RecordType::A),
    }];
    let records = read_record_sets(&pages, &host).unwrap().unwrap();
    assert_eq!(records, vec![mine]);
}

#[test]
fn exhausted_page_trace_reports_nothing() {
    let host = "host.example.".to_string();
    let pages = vec![ListPage {
        records: vec![a_record("host.example.", "1.1.1.1")],
        truncated: true,
        next_name: Some("host.example.".to_string()),
        next_type: Some(RecordType::Aaaa),
    }];
    assert!(read_record_sets(&pages, &host).is_none());
}
