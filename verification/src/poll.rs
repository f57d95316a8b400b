//! Change submission replies and the propagation poller's state machine.
//!
//! A submitted batch carries a change-info object with a tracking identifier
//! and a status. The poller inspects one status at a time: `Insync` ends the
//! wait, `Pending` asks for a sleep and a re-fetch, anything else is fatal.
//! The live loop around the provider is unverified I/O; it takes every
//! decision through `poll_decision`, and `poll_outcome` is that loop run
//! over a whole reply sequence at once.

use vstd::prelude::*;
use vstd::string::StringExecFns;
use crate::error::{ErrorView, Route53IpUpdateError};

verus! {

/// The provider-reported state of a submitted change batch. Statuses outside
/// the two known ones arrive as `Unknown` with the raw string.
#[derive(Clone, Debug, PartialEq, Eq)]
pub enum ChangeStatus {
    Pending,
    Insync,
    Unknown(String),
}

/// The mathematical shape of a status.
pub enum ChangeStatusView {
    Pending,
    Insync,
    Unknown(Seq<char>),
}

impl View for ChangeStatus {
    type V = ChangeStatusView;

    open spec fn view(&self) -> ChangeStatusView {
        match self {
            ChangeStatus::Pending => ChangeStatusView::Pending,
            ChangeStatus::Insync => ChangeStatusView::Insync,
            ChangeStatus::Unknown(s) => ChangeStatusView::Unknown(s@),
        }
    }
}

/// The change-info object of a provider reply: both fields are owed by the
/// provider's contract, so each is an `Option` here and its absence a
/// protocol violation.
#[derive(Clone, Debug)]
pub struct ChangeInfo {
    pub id: Option<String>,
    pub status: Option<ChangeStatus>,
}

/// What the poller does after seeing one status.
#[derive(Debug)]
pub enum PollDecision {
    /// The change is in sync everywhere: done.
    Complete,
    /// Still pending: sleep the poll interval and fetch the status again.
    SleepAndRefetch,
    /// A missing or unknown status: fail without polling further.
    Fail(Route53IpUpdateError),
}

/// The view of a status option, as the spec functions consume it.
pub open spec fn status_view(s: &Option<ChangeStatus>) -> Option<ChangeStatusView> {
    match s {
        Some(st) => Some(st@),
        None => None,
    }
}

/// The poller's transition function at the spec level.
pub open spec fn spec_poll_decision(status: Option<ChangeStatusView>) -> Result<
    Option<()>,
    ErrorView,
> {
    match status {
        None => Err(ErrorView::MissingExpectedAwsReplyField("Status"@)),
        Some(ChangeStatusView::Insync) => Ok(Some(())),
        Some(ChangeStatusView::Pending) => Ok(None),
        Some(ChangeStatusView::Unknown(raw)) => Err(ErrorView::UnexpectedRoute53Status(raw)),
    }
}

/// Decides one poll step: `Complete` exactly on `Insync`, `SleepAndRefetch`
/// exactly on `Pending`, and a failure carrying the raw status on an unknown
/// status or the protocol error on a missing one.
pub fn poll_decision(status: &Option<ChangeStatus>) -> (d: PollDecision)
    ensures
        match d {
            PollDecision::Complete => spec_poll_decision(status_view(status)) == Ok::<
                Option<()>,
                ErrorView,
            >(Some(())),
            PollDecision::SleepAndRefetch => spec_poll_decision(status_view(status)) == Ok::<
                Option<()>,
                ErrorView,
            >(None::<()>),
            PollDecision::Fail(e) => spec_poll_decision(status_view(status)) == Err::<
                Option<()>,
                ErrorView,
            >(e@),
        },
{
    match status {
        None => PollDecision::Fail(
            Route53IpUpdateError::MissingExpectedAwsReplyField(String::from_str("Status")),
        ),
        Some(ChangeStatus::Insync) => PollDecision::Complete,
        Some(ChangeStatus::Pending) => PollDecision::SleepAndRefetch,
        Some(ChangeStatus::Unknown(raw)) => PollDecision::Fail(
            Route53IpUpdateError::UnexpectedRoute53Status(raw.clone()),
        ),
    }
}

/// The poller run over a reply sequence: the first status is the one embedded
/// in the submit reply, each later one a re-fetch. Ends at the first terminal
/// status with the count of sleeps taken; yields nothing when the sequence
/// runs out with the change still pending.
pub open spec fn spec_poll_outcome(statuses: Seq<Option<ChangeStatusView>>) -> Option<
    (Result<(), ErrorView>, int),
>
    decreases statuses.len(),
{
    if statuses.len() == 0 {
        None
    } else {
        match spec_poll_decision(statuses[0]) {
            Ok(Some(_)) => Some((Ok(()), 0)),
            Err(e) => Some((Err(e), 0)),
            Ok(None) => match spec_poll_outcome(statuses.drop_first()) {
                None => None,
                Some((r, sleeps)) => Some((r, sleeps + 1)),
            },
        }
    }
}

/// The views of a sequence of optional statuses.
pub open spec fn status_views(s: Seq<Option<ChangeStatus>>) -> Seq<Option<ChangeStatusView>> {
    s.map_values(
        |o: Option<ChangeStatus>|
            match o {
                Some(st) => Some(st@),
                None => None,
            },
    )
}

/// Runs the poller over a reply sequence, counting the sleeps the live loop
/// would have taken; `None` when the sequence ends with the change still
/// pending.
pub fn poll_outcome(statuses: &Vec<Option<ChangeStatus>>) -> (r: Option<
    (Result<(), Route53IpUpdateError>, usize),
>)
    ensures
        match r {
            None => spec_poll_outcome(status_views(statuses@)) is None,
            Some((res, sleeps)) => match res {
                Ok(_) => spec_poll_outcome(status_views(statuses@)) == Some(
                    (Ok::<(), ErrorView>(()), sleeps as int),
                ),
                Err(e) => spec_poll_outcome(status_views(statuses@)) == Some(
                    (Err::<(), ErrorView>(e@), sleeps as int),
                ),
            },
        },
{
    let n = statuses.len();
    let mut i: usize = 0;
    proof {
        assert(status_views(statuses@).skip(0) =~= status_views(statuses@));
    }
    while i < n
        invariant
            n == statuses@.len(),
            i <= n,
            ({
                let full = spec_poll_outcome(status_views(statuses@));
                let rem = spec_poll_outcome(status_views(statuses@).skip(i as int));
                match rem {
                    None => full is None,
                    Some((res, sleeps)) => full == Some((res, sleeps + i)),
                }
            }),
        decreases n - i,
    {
        proof {
            assert(status_views(statuses@).skip(i as int)[0] == status_view(
                &statuses@[i as int],
            ));
            assert(status_views(statuses@).skip(i as int).drop_first() =~= status_views(
                statuses@,
            ).skip(i + 1));
        }
        match poll_decision(&statuses[i]) {
            PollDecision::Complete => {
                return Some((Ok(()), i));
            },
            PollDecision::SleepAndRefetch => {},
            PollDecision::Fail(e) => {
                return Some((Err(e), i));
            },
        }
        i += 1;
    }
    proof {
        assert(status_views(statuses@).skip(n as int) =~= Seq::<Option<ChangeStatusView>>::empty());
    }
    None
}

/// The tracking handle and embedded status of a submit reply, or the exact
/// protocol violation: a reply without a change-info object fails on
/// `ChangeInfo`, one whose change-info lacks an identifier fails on `Id`.
pub fn extract_change_handle(change_info: &Option<ChangeInfo>) -> (r: Result<
    (String, Option<ChangeStatus>),
    Route53IpUpdateError,
>)
    ensures
        match r {
            Ok(h) => ({
                &&& change_info is Some
                &&& change_info->Some_0.id is Some
                &&& h.0@ == change_info->Some_0.id->Some_0@
                &&& status_view(&h.1) == status_view(&change_info->Some_0.status)
            }),
            Err(e) => match change_info {
                None => e@ == ErrorView::MissingExpectedAwsReplyField("ChangeInfo"@),
                Some(ci) => ci.id is None && e@ == ErrorView::MissingExpectedAwsReplyField(
                    "Id"@,
                ),
            },
        },
{
    match change_info {
        None => Err(
            Route53IpUpdateError::MissingExpectedAwsReplyField(String::from_str("ChangeInfo")),
        ),
        Some(ci) => match &ci.id {
            None => Err(Route53IpUpdateError::MissingExpectedAwsReplyField(String::from_str("Id"))),
            Some(id) => {
                let status = match &ci.status {
                    Some(ChangeStatus::Pending) => Some(ChangeStatus::Pending),
                    Some(ChangeStatus::Insync) => Some(ChangeStatus::Insync),
                    Some(ChangeStatus::Unknown(raw)) => Some(ChangeStatus::Unknown(raw.clone())),
                    None => None,
                };
                Ok((id.clone(), status))
            },
        },
    }
}

} // verus!
