//! Record sets as read from the provider, and the changes applied to them.

use vstd::prelude::*;
use crate::addr::{views_of, IpAddress};

verus! {

/// The record types the engine distinguishes. Everything else is preserved
/// untouched and folded into `Other`.
#[derive(Clone, Copy, Debug, PartialEq, Eq, Structural)]
pub enum RecordType {
    A,
    Aaaa,
    Cname,
    Other,
}

/// One record set of a zone as the provider reports it: a name, a type (a
/// reply without one is a protocol violation, hence the `Option`), a TTL,
/// the literal values, and the optional routing-policy set identifier.
#[derive(Clone, Debug, PartialEq, Eq)]
pub struct RecordSet {
    pub name: String,
    pub rtype: Option<RecordType>,
    pub ttl: Option<i64>,
    pub set_identifier: Option<String>,
    pub values: Vec<String>,
}

/// The mathematical shape of a record set.
pub struct RecordSetView {
    pub name: Seq<char>,
    pub rtype: Option<RecordType>,
    pub ttl: Option<int>,
    pub set_identifier: Option<Seq<char>>,
    pub values: Seq<Seq<char>>,
}

impl View for RecordSet {
    type V = RecordSetView;

    open spec fn view(&self) -> RecordSetView {
        RecordSetView {
            name: self.name@,
            rtype: self.rtype,
            ttl: match self.ttl {
                Some(t) => Some(t as int),
                None => None,
            },
            set_identifier: match &self.set_identifier {
                Some(s) => Some(s@),
                None => None,
            },
            values: views_of(self.values@),
        }
    }
}

impl RecordSet {
    /// A copy whose view is the same.
    pub fn duplicate(&self) -> (r: RecordSet)
        ensures
            r@ == self@,
    {
        let mut values: Vec<String> = Vec::new();
        let mut i: usize = 0;
        proof {
            assert(views_of(values@) =~~= views_of(self.values@).take(0));
        }
        while i < self.values.len()
            invariant
                i <= self.values@.len(),
                values@.len() == i,
                views_of(values@) == views_of(self.values@).take(i as int),
            decreases self.values@.len() - i,
        {
            let ghost prev = values@;
            values.push(self.values[i].clone());
            proof {
                assert forall|j: int| 0 <= j < i + 1 implies views_of(values@)[j] == views_of(
                    self.values@,
                ).take(i + 1)[j] by {
                    if j < i {
                        assert(views_of(prev)[j] == views_of(self.values@).take(i as int)[j]);
                    } else {
                        assert(values@[j] == self.values@[j]);
                    }
                }
                assert(views_of(values@) =~~= views_of(self.values@).take(i + 1));
            }
            i += 1;
        }
        proof {
            assert(views_of(values@) =~~= views_of(self.values@));
        }
        let r = RecordSet {
            name: self.name.clone(),
            rtype: self.rtype,
            ttl: self.ttl,
            set_identifier: match &self.set_identifier {
                Some(s) => Some(s.clone()),
                None => None,
            },
            values,
        };
        proof {
            assert(r@ =~= self@);
        }
        r
    }
}

/// One mutation of the zone: either the removal of an exact existing record
/// set, or the upsert of the managed record of one family to the desired
/// addresses.
#[derive(Clone, Debug, PartialEq, Eq)]
pub enum Change {
    Delete { record: RecordSet },
    Upsert { rtype: RecordType, name: String, ttl: i64, addresses: Vec<IpAddress> },
}

/// The mathematical shape of a change.
pub enum ChangeView {
    Delete { record: RecordSetView },
    Upsert { rtype: RecordType, name: Seq<char>, ttl: int, addresses: Seq<IpAddress> },
}

impl View for Change {
    type V = ChangeView;

    open spec fn view(&self) -> ChangeView {
        match self {
            Change::Delete { record } => ChangeView::Delete { record: record@ },
            Change::Upsert { rtype, name, ttl, addresses } => ChangeView::Upsert {
                rtype: *rtype,
                name: name@,
                ttl: *ttl as int,
                addresses: addresses@,
            },
        }
    }
}

/// The views of a sequence of record sets.
pub open spec fn record_views(s: Seq<RecordSet>) -> Seq<RecordSetView> {
    s.map_values(|r: RecordSet| r@)
}

/// The views of a sequence of changes.
pub open spec fn change_views(s: Seq<Change>) -> Seq<ChangeView> {
    s.map_values(|c: Change| c@)
}

} // verus!
