//! The address-family filter: which families of discovered addresses are
//! taken up.

use vstd::prelude::*;
use crate::addr::IpAddress;
use crate::error::{ErrorView, Route53IpUpdateError};
use crate::strutil::str_eq;

verus! {

/// Whether IPv4 addresses, IPv6 addresses or both are used.
#[derive(Clone, Copy, Debug, PartialEq, Eq, Structural)]
pub enum QueryAddressType {
    Both,
    Ipv4,
    Ipv6,
}

impl QueryAddressType {
    /// Whether an address of this family passes the filter.
    pub open spec fn spec_allows_address(self, addr: IpAddress) -> bool {
        match addr {
            IpAddress::V4(_) => self == QueryAddressType::Both || self == QueryAddressType::Ipv4,
            IpAddress::V6(_) => self == QueryAddressType::Both || self == QueryAddressType::Ipv6,
        }
    }

    /// Decides `spec_allows_address`.
    pub fn allows_address(&self, addr: &IpAddress) -> (r: bool)
        ensures
            r == self.spec_allows_address(*addr),
    {
        match addr {
            IpAddress::V4(_) => *self == QueryAddressType::Both || *self == QueryAddressType::Ipv4,
            IpAddress::V6(_) => *self == QueryAddressType::Both || *self == QueryAddressType::Ipv6,
        }
    }

    /// The selector's written form.
    pub open spec fn spec_as_str(self) -> Seq<char> {
        match self {
            QueryAddressType::Both => "both"@,
            QueryAddressType::Ipv4 => "ipv4"@,
            QueryAddressType::Ipv6 => "ipv6"@,
        }
    }

    /// Writes the selector out.
    pub fn as_str(&self) -> (r: &'static str)
        ensures
            r@ == self.spec_as_str(),
    {
        match self {
            QueryAddressType::Both => "both",
            QueryAddressType::Ipv4 => "ipv4",
            QueryAddressType::Ipv6 => "ipv6",
        }
    }

    /// Reads a selector: exactly "both", "ipv4" or "ipv6"; anything else is
    /// rejected with the offending string.
    pub fn from_str(s: &str) -> (r: Result<QueryAddressType, Route53IpUpdateError>)
        ensures
            match r {
                Ok(t) => s@ == t.spec_as_str(),
                Err(e) => s@ != "both"@ && s@ != "ipv4"@ && s@ != "ipv6"@ && e@
                    == ErrorView::InvalidQueryAddressType(s@),
            },
    {
        if str_eq(s, "both") {
            Ok(QueryAddressType::Both)
        } else if str_eq(s, "ipv4") {
            Ok(QueryAddressType::Ipv4)
        } else if str_eq(s, "ipv6") {
            Ok(QueryAddressType::Ipv6)
        } else {
            Err(Route53IpUpdateError::InvalidQueryAddressType(s.to_owned()))
        }
    }
}

impl Default for QueryAddressType {
    /// Both families are used unless configured otherwise.
    fn default() -> (r: Self)
        ensures
            r == QueryAddressType::Both,
    {
        QueryAddressType::Both
    }
}

} // verus!
