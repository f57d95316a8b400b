//! The error taxonomy of the update engine.

use vstd::prelude::*;
use vstd::string::StringExecFns;

verus! {

/// Everything that can go wrong while reconciling zones, other than plain
/// transport failures of the provider calls themselves (those are reported
/// by the unverified I/O layer around this library).
#[derive(Clone, Debug, PartialEq, Eq)]
pub enum Route53IpUpdateError {
    /// The configuration cannot be acted on; carries one message per fault.
    InvalidConfig(Vec<String>),
    /// A record value did not parse as an IP address of the record's family.
    InvalidIpAddr(String),
    /// An address-family selector string was not recognised.
    InvalidQueryAddressType(String),
    /// A TTL string was not a positive number of seconds.
    InvalidTtl(String),
    /// A provider reply omitted a field its contract requires; carries the
    /// field name.
    MissingExpectedAwsReplyField(String),
    /// The provider reported a change status outside the known set; carries
    /// the raw status string.
    UnexpectedRoute53Status(String),
    /// A configuration file had a missing or unrecognised extension.
    UnknownConfigFileExt(Option<String>),
}

/// The mathematical shape of an error: the same variants over character
/// sequences.
pub enum ErrorView {
    InvalidConfig(Seq<Seq<char>>),
    InvalidIpAddr(Seq<char>),
    InvalidQueryAddressType(Seq<char>),
    InvalidTtl(Seq<char>),
    MissingExpectedAwsReplyField(Seq<char>),
    UnexpectedRoute53Status(Seq<char>),
    UnknownConfigFileExt(Option<Seq<char>>),
}

impl View for Route53IpUpdateError {
    type V = ErrorView;

    open spec fn view(&self) -> ErrorView {
        match self {
            Route53IpUpdateError::InvalidConfig(msgs) => ErrorView::InvalidConfig(
                msgs@.map_values(|m: String| m@),
            ),
            Route53IpUpdateError::InvalidIpAddr(s) => ErrorView::InvalidIpAddr(s@),
            Route53IpUpdateError::InvalidQueryAddressType(s) => ErrorView::InvalidQueryAddressType(
                s@,
            ),
            Route53IpUpdateError::InvalidTtl(s) => ErrorView::InvalidTtl(s@),
            Route53IpUpdateError::MissingExpectedAwsReplyField(s)
                => ErrorView::MissingExpectedAwsReplyField(s@),
            Route53IpUpdateError::UnexpectedRoute53Status(s) => ErrorView::UnexpectedRoute53Status(
                s@,
            ),
            Route53IpUpdateError::UnknownConfigFileExt(e) => ErrorView::UnknownConfigFileExt(
                match e {
                    Some(s) => Some(s@),
                    None => None,
                },
            ),
        }
    }
}

/// The description of an invalid configuration: each fault behind one space.
pub open spec fn spec_config_message(msgs: Seq<Seq<char>>) -> Seq<char>
    decreases msgs.len(),
{
    if msgs.len() == 0 {
        "Invalid configuration:"@
    } else {
        spec_config_message(msgs.drop_last()) + seq![' '] + msgs.last()
    }
}

/// The one-line description of an error, with the offending datum.
pub open spec fn spec_message(e: ErrorView) -> Seq<char> {
    match e {
        ErrorView::InvalidConfig(msgs) => spec_config_message(msgs),
        ErrorView::InvalidIpAddr(s) => "Invalid IP address: "@ + s,
        ErrorView::InvalidQueryAddressType(s) => "Invalid query address type: "@ + s,
        ErrorView::InvalidTtl(s) => "Invalid TTL: "@ + s,
        ErrorView::MissingExpectedAwsReplyField(s) => "AWS reply is missing expected field: "@ + s,
        ErrorView::UnexpectedRoute53Status(s)
            => "Unexpected Route 53 change status reported: "@ + s,
        ErrorView::UnknownConfigFileExt(e) => match e {
            Some(s) => "Unknown extension for configuration file: "@ + s,
            None => "Configuration file has no extension"@,
        },
    }
}

impl Route53IpUpdateError {
    /// Writes the error out as `spec_message` says.
    pub fn message(&self) -> (r: String)
        ensures
            r@ == spec_message(self@),
    {
        match self {
            Route53IpUpdateError::InvalidConfig(msgs) => {
                let ghost mv = msgs@.map_values(|m: String| m@);
                let mut out = String::from_str("Invalid configuration:");
                let mut i: usize = 0;
                proof {
                    assert(mv.take(0) =~= Seq::<Seq<char>>::empty());
                }
                while i < msgs.len()
                    invariant
                        mv == msgs@.map_values(|m: String| m@),
                        i <= msgs@.len(),
                        out@ == spec_config_message(mv.take(i as int)),
                    decreases msgs@.len() - i,
                {
                    proof {
                        assert(mv.take(i + 1).drop_last() =~= mv.take(i as int));
                        assert(mv.take(i + 1).last() == msgs@[i as int]@);
                        reveal_strlit(" ");
                    }
                    out.append(" ");
                    out.append(msgs[i].as_str());
                    i += 1;
                }
                proof {
                    assert(mv.take(msgs@.len() as int) =~= mv);
                }
                out
            },
            Route53IpUpdateError::InvalidIpAddr(s) => String::from_str("Invalid IP address: ")
                .concat(s.as_str()),
            Route53IpUpdateError::InvalidQueryAddressType(s) => String::from_str(
                "Invalid query address type: ",
            ).concat(s.as_str()),
            Route53IpUpdateError::InvalidTtl(s) => String::from_str("Invalid TTL: ").concat(
                s.as_str(),
            ),
            Route53IpUpdateError::MissingExpectedAwsReplyField(s) => String::from_str(
                "AWS reply is missing expected field: ",
            ).concat(s.as_str()),
            Route53IpUpdateError::UnexpectedRoute53Status(s) => String::from_str(
                "Unexpected Route 53 change status reported: ",
            ).concat(s.as_str()),
            Route53IpUpdateError::UnknownConfigFileExt(e) => match e {
                Some(s) => String::from_str("Unknown extension for configuration file: ").concat(
                    s.as_str(),
                ),
                None => String::from_str("Configuration file has no extension"),
            },
        }
    }
}

} // verus!
