use route53_ip_update::error::Route53IpUpdateError;
use route53_ip_update::poll::{
    extract_change_handle, poll_decision, poll_outcome, ChangeInfo, ChangeStatus, PollDecision,
};

#[test]
fn pending_pending_insync_succeeds_after_two_sleeps() {
    let statuses = vec![
        Some(ChangeStatus::Pending),
        Some(ChangeStatus::Pending),
        Some(ChangeStatus::Insync),
    ];
    let (result, sleeps) = poll_outcome(&statuses).unwrap();
    assert!(result.is_ok());
    assert_eq!(sleeps, 2);
}

#[test]
fn unknown_status_fails_without_further_polling() {
    let statuses = vec![
        Some(ChangeStatus::Unknown("REVERTED".to_string())),
        Some(ChangeStatus::Insync),
    ];
    let (result, sleeps) = poll_outcome(&statuses).unwrap();
    assert_eq!(
        result.unwrap_err(),
        Route53IpUpdateError::UnexpectedRoute53Status("REVERTED".to_string())
    );
    assert_eq!(sleeps, 0);
}

#[test]
fn immediate_insync_takes_no_sleep() {
    let statuses = vec![Some(ChangeStatus::Insync)];
    let (result, sleeps) = poll_outcome(&statuses).unwrap();
    assert!(result.is_ok());
    assert_eq!(sleeps, 0);
}

#[test]
fn missing_status_is_a_protocol_violation() {
    let statuses = vec![Some(ChangeStatus::Pending), None];
    let (result, sleeps) = poll_outcome(&statuses).unwrap();
    assert_eq!(
        result.unwrap_err(),
        Route53IpUpdateError::MissingExpectedAwsReplyField("Status".to_string())
    );
    assert_eq!(sleeps, 1);
}

#[test]
fn exhausted_trace_reports_nothing() {
    let statuses = vec![Some(ChangeStatus::Pending), Some(ChangeStatus::Pending)];
    assert!(poll_outcome(&statuses).is_none());
}

#[test]
fn decision_matches_each_status() {
    assert!(matches!(poll_decision(&Some(ChangeStatus::Insync)), PollDecision::Complete));
    assert!(matches!(poll_decision(&Some(ChangeStatus::Pending)), PollDecision::SleepAndRefetch));
    match poll_decision(&Some(ChangeStatus::Unknown("X".to_string()))) {
        PollDecision::Fail(e) => {
            assert_eq!(e, Route53IpUpdateError::UnexpectedRoute53Status("X".to_string()))
        },
        other => panic!("unexpected decision: {other:?}"),
    }
    match poll_decision(&None) {
        PollDecision::Fail(e) => {
            assert_eq!(e, Route53IpUpdateError::MissingExpectedAwsReplyField("Status".to_string()))
        },
        other => panic!("unexpected decision: {other:?}"),
    }
}

#[test]
fn handle_extraction_reads_id_and_status() {
    let ci = ChangeInfo {
        id: Some("/change/C123".to_string()),
        status: Some(ChangeStatus::Pending),
    };
    let (id, status) = extract_change_handle(&Some(ci)).unwrap();
    assert_eq!(id, "/change/C123");
    assert_eq!(status, Some(ChangeStatus::Pending));
}

#[test]
fn missing_change_info_fails_on_change_info() {
    let err = extract_change_handle(&None).unwrap_err();
    assert_eq!(err, Route53IpUpdateError::MissingExpectedAwsReplyField("ChangeInfo".to_string()));
}

#[test]
fn missing_id_fails_on_id() {
    let ci = ChangeInfo { id: None, status: Some(ChangeStatus::Pending) };
    let err = extract_change_handle(&Some(ci)).unwrap_err();
    assert_eq!(err, Route53IpUpdateError::MissingExpectedAwsReplyField("Id".to_string()));
}
