//! The hostname diff engine: the ordered list of changes that brings one
//! hostname's A/AAAA state to the desired addresses and TTL.
//!
//! The algorithm is a single left-to-right pass over the existing record
//! sets, given here as the spec function `diff_records`; the executable
//! `diff_hostname` is proved to return exactly its result. Per family, a
//! record set with no set identifier whose values equal the desired set and
//! whose TTL matches is kept and consumes the family's single managed slot;
//! every further or foreign record of the family is deleted; one record may
//! be upserted in place; a missing family is created after the pass.

use vstd::prelude::*;
use vstd::string::StringExecFns;
use crate::addr::{views_of, spec_parse_ipv4, spec_parse_ipv6, IpAddress};
use crate::error::{ErrorView, Route53IpUpdateError};
use crate::records::{change_views, record_views, Change, ChangeView, RecordSet, RecordSetView, RecordType};

verus! {

/// Parses every value of a record as an address of the record's family
/// (IPv4 when `v4` holds, IPv6 otherwise); fails with the first value that
/// does not parse.
pub open spec fn parse_family(values: Seq<Seq<char>>, v4: bool) -> Result<Seq<IpAddress>, Seq<char>>
    decreases values.len(),
{
    if values.len() == 0 {
        Ok(Seq::<IpAddress>::empty())
    } else {
        let parsed: Option<IpAddress> = if v4 {
            match spec_parse_ipv4(values[0]) {
                Some(v) => Some(IpAddress::V4(v)),
                None => None,
            }
        } else {
            match spec_parse_ipv6(values[0]) {
                Some(w) => Some(IpAddress::V6(w)),
                None => None,
            }
        };
        match parsed {
            None => Err(values[0]),
            Some(a) => match parse_family(values.drop_first(), v4) {
                Ok(rest) => Ok(seq![a] + rest),
                Err(e) => Err(e),
            },
        }
    }
}

/// The upsert that points one family's managed record at the desired set.
pub open spec fn upsert_view(
    rtype: RecordType,
    hostname: Seq<char>,
    ttl: int,
    desired: Seq<IpAddress>,
) -> ChangeView {
    ChangeView::Upsert { rtype, name: hostname, ttl, addresses: desired }
}

/// What one A or AAAA record contributes: no change when it already carries
/// exactly the desired addresses and TTL without a set identifier (this
/// satisfies the family); a deletion when the family is already satisfied,
/// the desired set is empty, or the record is a routing-policy variant; an
/// in-place upsert otherwise. Yields the changes and whether the family is
/// satisfied afterwards, or the first unparsable value.
pub open spec fn family_record_changes(
    r: RecordSetView,
    hostname: Seq<char>,
    desired: Seq<IpAddress>,
    ttl: int,
    seen: bool,
    rtype: RecordType,
) -> Result<(Seq<ChangeView>, bool), ErrorView> {
    match parse_family(r.values, rtype is A) {
        Err(bad) => Err(ErrorView::InvalidIpAddr(bad)),
        Ok(addrs) => {
            if r.set_identifier is None && addrs.to_set() == desired.to_set() && r.ttl == Some(ttl) {
                Ok((Seq::<ChangeView>::empty(), true))
            } else if seen || desired.len() == 0 || r.set_identifier is Some {
                Ok((seq![ChangeView::Delete { record: r }], seen))
            } else {
                Ok((seq![upsert_view(rtype, hostname, ttl, desired)], true))
            }
        },
    }
}

/// What one record of any type contributes: A and AAAA go through
/// `family_record_changes`, a CNAME at the managed name is always deleted,
/// other types are preserved, and a record without a type is a protocol
/// violation.
pub open spec fn diff_step(
    r: RecordSetView,
    hostname: Seq<char>,
    v4: Seq<IpAddress>,
    v6: Seq<IpAddress>,
    ttl: int,
    s4: bool,
    s6: bool,
) -> Result<(Seq<ChangeView>, bool, bool), ErrorView> {
    match r.rtype {
        None => Err(ErrorView::MissingExpectedAwsReplyField("Type"@)),
        Some(RecordType::A) => match family_record_changes(r, hostname, v4, ttl, s4, RecordType::A) {
            Ok((cs, ns)) => Ok((cs, ns, s6)),
            Err(e) => Err(e),
        },
        Some(RecordType::Aaaa) => match family_record_changes(
            r,
            hostname,
            v6,
            ttl,
            s6,
            RecordType::Aaaa,
        ) {
            Ok((cs, ns)) => Ok((cs, s4, ns)),
            Err(e) => Err(e),
        },
        Some(RecordType::Cname) => Ok((seq![ChangeView::Delete { record: r }], s4, s6)),
        Some(RecordType::Other) => Ok((Seq::<ChangeView>::empty(), s4, s6)),
    }
}

/// The creates appended after the pass for each family that is still
/// unsatisfied: A before AAAA.
pub open spec fn trailing_creates(
    hostname: Seq<char>,
    v4: Seq<IpAddress>,
    v6: Seq<IpAddress>,
    ttl: int,
    s4: bool,
    s6: bool,
) -> Seq<ChangeView> {
    (if !s4 {
        seq![upsert_view(RecordType::A, hostname, ttl, v4)]
    } else {
        Seq::<ChangeView>::empty()
    }) + (if !s6 {
        seq![upsert_view(RecordType::Aaaa, hostname, ttl, v6)]
    } else {
        Seq::<ChangeView>::empty()
    })
}

/// The pass itself, from given satisfaction flags onwards.
pub open spec fn diff_records(
    existing: Seq<RecordSetView>,
    hostname: Seq<char>,
    v4: Seq<IpAddress>,
    v6: Seq<IpAddress>,
    ttl: int,
    s4: bool,
    s6: bool,
) -> Result<Seq<ChangeView>, ErrorView>
    decreases existing.len(),
{
    if existing.len() == 0 {
        Ok(trailing_creates(hostname, v4, v6, ttl, s4, s6))
    } else {
        match diff_step(existing[0], hostname, v4, v6, ttl, s4, s6) {
            Err(e) => Err(e),
            Ok((cs, n4, n6)) => match diff_records(
                existing.drop_first(),
                hostname,
                v4,
                v6,
                ttl,
                n4,
                n6,
            ) {
                Err(e) => Err(e),
                Ok(rest) => Ok(cs + rest),
            },
        }
    }
}

/// The changes for one hostname. A family whose desired set is empty starts
/// out satisfied: nothing is to be created for it.
pub open spec fn spec_diff_hostname(
    existing: Seq<RecordSetView>,
    hostname: Seq<char>,
    v4: Seq<IpAddress>,
    v6: Seq<IpAddress>,
    ttl: int,
) -> Result<Seq<ChangeView>, ErrorView> {
    diff_records(existing, hostname, v4, v6, ttl, v4.len() == 0, v6.len() == 0)
}

/// The loop invariant of the executable pass: the records before `i` are
/// processed into `acc`, and finishing the remainder from the current flags
/// reaches `goal`.
pub open spec fn diff_inv(
    goal: Result<Seq<ChangeView>, ErrorView>,
    vs: Seq<RecordSetView>,
    hostname: Seq<char>,
    v4: Seq<IpAddress>,
    v6: Seq<IpAddress>,
    ttl: int,
    i: int,
    s4: bool,
    s6: bool,
    acc: Seq<ChangeView>,
) -> bool {
    match diff_records(vs.skip(i), hostname, v4, v6, ttl, s4, s6) {
        Ok(rest) => goal == Ok::<Seq<ChangeView>, ErrorView>(acc + rest),
        Err(e) => goal == Err::<Seq<ChangeView>, ErrorView>(e),
    }
}

/// Entering the pass: nothing processed yet.
proof fn lemma_diff_inv_init(
    goal: Result<Seq<ChangeView>, ErrorView>,
    vs: Seq<RecordSetView>,
    hostname: Seq<char>,
    v4: Seq<IpAddress>,
    v6: Seq<IpAddress>,
    ttl: int,
    s4: bool,
    s6: bool,
)
    requires
        goal == diff_records(vs, hostname, v4, v6, ttl, s4, s6),
    ensures
        diff_inv(goal, vs, hostname, v4, v6, ttl, 0, s4, s6, Seq::<ChangeView>::empty()),
{
    assert(vs.skip(0) =~= vs);
    if diff_records(vs, hostname, v4, v6, ttl, s4, s6) is Ok {
        let rest = diff_records(vs, hostname, v4, v6, ttl, s4, s6)->Ok_0;
        assert(Seq::<ChangeView>::empty() + rest =~= rest);
    }
}

/// One successful step of the pass keeps the invariant.
proof fn lemma_diff_extend(
    goal: Result<Seq<ChangeView>, ErrorView>,
    vs: Seq<RecordSetView>,
    hostname: Seq<char>,
    v4: Seq<IpAddress>,
    v6: Seq<IpAddress>,
    ttl: int,
    i: int,
    s4: bool,
    s6: bool,
    acc: Seq<ChangeView>,
)
    requires
        0 <= i < vs.len(),
        diff_inv(goal, vs, hostname, v4, v6, ttl, i, s4, s6, acc),
        diff_step(vs[i], hostname, v4, v6, ttl, s4, s6) is Ok,
    ensures
        ({
            let (cs, n4, n6) = diff_step(vs[i], hostname, v4, v6, ttl, s4, s6)->Ok_0;
            diff_inv(goal, vs, hostname, v4, v6, ttl, i + 1, n4, n6, acc + cs)
        }),
{
    let (cs, n4, n6) = diff_step(vs[i], hostname, v4, v6, ttl, s4, s6)->Ok_0;
    assert(vs.skip(i)[0] == vs[i]);
    assert(vs.skip(i).drop_first() =~= vs.skip(i + 1));
    if diff_records(vs.skip(i + 1), hostname, v4, v6, ttl, n4, n6) is Ok {
        let rest = diff_records(vs.skip(i + 1), hostname, v4, v6, ttl, n4, n6)->Ok_0;
        assert(diff_records(vs.skip(i), hostname, v4, v6, ttl, s4, s6) == Ok::<
            Seq<ChangeView>,
            ErrorView,
        >(cs + rest));
        assert(acc + (cs + rest) =~= (acc + cs) + rest);
    }
}

/// A failing step of the pass decides the whole result.
proof fn lemma_diff_err(
    goal: Result<Seq<ChangeView>, ErrorView>,
    vs: Seq<RecordSetView>,
    hostname: Seq<char>,
    v4: Seq<IpAddress>,
    v6: Seq<IpAddress>,
    ttl: int,
    i: int,
    s4: bool,
    s6: bool,
    acc: Seq<ChangeView>,
)
    requires
        0 <= i < vs.len(),
        diff_inv(goal, vs, hostname, v4, v6, ttl, i, s4, s6, acc),
        diff_step(vs[i], hostname, v4, v6, ttl, s4, s6) is Err,
    ensures
        goal == Err::<Seq<ChangeView>, ErrorView>(
            diff_step(vs[i], hostname, v4, v6, ttl, s4, s6)->Err_0,
        ),
{
    assert(vs.skip(i)[0] == vs[i]);
}

/// Whether a vector of addresses holds one.
fn contains_addr(v: &Vec<IpAddress>, x: IpAddress) -> (r: bool)
    ensures
        r == v@.contains(x),
{
    let mut i: usize = 0;
    while i < v.len()
        invariant
            i <= v@.len(),
            forall|j: int| 0 <= j < i ==> v@[j] != x,
        decreases v@.len() - i,
    {
        if v[i] == x {
            return true;
        }
        i += 1;
    }
    false
}

/// Whether two vectors hold the same set of addresses.
fn same_address_set(a: &Vec<IpAddress>, b: &Vec<IpAddress>) -> (r: bool)
    ensures
        r == (a@.to_set() == b@.to_set()),
{
    let mut i: usize = 0;
    while i < a.len()
        invariant
            i <= a@.len(),
            forall|j: int| 0 <= j < i ==> b@.contains(#[trigger] a@[j]),
        decreases a@.len() - i,
    {
        if !contains_addr(b, a[i]) {
            proof {
                assert(a@.to_set().contains(a@[i as int]));
                assert(!b@.to_set().contains(a@[i as int]));
            }
            return false;
        }
        i += 1;
    }
    let mut k: usize = 0;
    while k < b.len()
        invariant
            k <= b@.len(),
            forall|j: int| 0 <= j < a@.len() ==> b@.contains(#[trigger] a@[j]),
            forall|j: int| 0 <= j < k ==> a@.contains(#[trigger] b@[j]),
        decreases b@.len() - k,
    {
        if !contains_addr(a, b[k]) {
            proof {
                assert(b@.to_set().contains(b@[k as int]));
                assert(!a@.to_set().contains(b@[k as int]));
            }
            return false;
        }
        k += 1;
    }
    proof {
        assert forall|x: IpAddress| a@.to_set().contains(x) implies b@.to_set().contains(x) by {
            let j = choose|j: int| 0 <= j < a@.len() && a@[j] == x;
            assert(b@.contains(a@[j]));
        }
        assert forall|x: IpAddress| b@.to_set().contains(x) implies a@.to_set().contains(x) by {
            let j = choose|j: int| 0 <= j < b@.len() && b@[j] == x;
            assert(a@.contains(b@[j]));
        }
        assert(a@.to_set() =~= b@.to_set());
    }
    true
}

/// A copy of a vector of addresses.
fn copy_addrs(v: &Vec<IpAddress>) -> (r: Vec<IpAddress>)
    ensures
        r@ == v@,
{
    let mut r: Vec<IpAddress> = Vec::new();
    let mut i: usize = 0;
    while i < v.len()
        invariant
            i <= v@.len(),
            r@.len() == i,
            r@ == v@.take(i as int),
        decreases v@.len() - i,
    {
        r.push(v[i]);
        proof {
            assert(r@ =~= v@.take(i + 1));
        }
        i += 1;
    }
    proof {
        assert(r@ =~= v@);
    }
    r
}

/// Parses every value of a record as an address of one family; the error
/// carries the first value that does not parse.
fn parse_values(values: &Vec<String>, v4: bool) -> (r: Result<Vec<IpAddress>, String>)
    ensures
        match r {
            Ok(addrs) => parse_family(views_of(values@), v4) == Ok::<Seq<IpAddress>, Seq<char>>(
                addrs@,
            ),
            Err(bad) => parse_family(views_of(values@), v4) == Err::<Seq<IpAddress>, Seq<char>>(
                bad@,
            ),
        },
{
    let mut addrs: Vec<IpAddress> = Vec::new();
    let mut i: usize = 0;
    proof {
        assert(views_of(values@).skip(0) =~= views_of(values@));
    }
    while i < values.len()
        invariant
            i <= values@.len(),
            addrs@.len() <= i,
            match parse_family(views_of(values@).skip(i as int), v4) {
                Ok(rest) => parse_family(views_of(values@), v4) == Ok::<
                    Seq<IpAddress>,
                    Seq<char>,
                >(addrs@ + rest),
                Err(e) => parse_family(views_of(values@), v4) == Err::<
                    Seq<IpAddress>,
                    Seq<char>,
                >(e),
            },
        decreases values@.len() - i,
    {
        proof {
            assert(views_of(values@).skip(i as int)[0] == values@[i as int]@);
            assert(views_of(values@).skip(i as int).drop_first() =~= views_of(values@).skip(
                i + 1,
            ));
        }
        let parsed: Option<IpAddress> = if v4 {
            match crate::addr::parse_ipv4_literal(values[i].as_str()) {
                Some(v) => Some(IpAddress::V4(v)),
                None => None,
            }
        } else {
            match crate::addr::parse_ipv6_literal(values[i].as_str()) {
                Some(w) => Some(IpAddress::V6(w)),
                None => None,
            }
        };
        match parsed {
            Some(a) => {
                let ghost prev = addrs@;
                addrs.push(a);
                proof {
                    if parse_family(views_of(values@).skip(i + 1), v4) is Ok {
                        let rest = parse_family(views_of(values@).skip(i + 1), v4)->Ok_0;
                        assert(prev + (seq![a] + rest) =~= addrs@ + rest);
                    }
                }
            },
            None => {
                return Err(values[i].clone());
            },
        }
        i += 1;
    }
    proof {
        assert(views_of(values@).skip(values@.len() as int) =~= Seq::<Seq<char>>::empty());
        assert(addrs@ + Seq::<IpAddress>::empty() =~= addrs@);
    }
    Ok(addrs)
}

/// Computes the ordered change list for one hostname: the pass of
/// `spec_diff_hostname` over the existing record sets, against the desired
/// per-family address sets and the effective TTL.
pub fn diff_hostname(
    existing: &Vec<RecordSet>,
    hostname: &str,
    desired_ipv4: &Vec<IpAddress>,
    desired_ipv6: &Vec<IpAddress>,
    desired_ttl: i64,
) -> (r: Result<Vec<Change>, Route53IpUpdateError>)
    ensures
        ({
            let goal = spec_diff_hostname(
                record_views(existing@),
                hostname@,
                desired_ipv4@,
                desired_ipv6@,
                desired_ttl as int,
            );
            match r {
                Ok(cs) => goal == Ok::<Seq<ChangeView>, ErrorView>(change_views(cs@)),
                Err(e) => goal == Err::<Seq<ChangeView>, ErrorView>(e@),
            }
        }),
{
    let ghost vs = record_views(existing@);
    let ghost ttl = desired_ttl as int;
    let ghost goal = spec_diff_hostname(vs, hostname@, desired_ipv4@, desired_ipv6@, ttl);
    let mut changes: Vec<Change> = Vec::new();
    let mut v4_seen = desired_ipv4.len() == 0;
    let mut v6_seen = desired_ipv6.len() == 0;
    let mut i: usize = 0;
    proof {
        lemma_diff_inv_init(goal, vs, hostname@, desired_ipv4@, desired_ipv6@, ttl, v4_seen, v6_seen);
        assert(change_views(changes@) =~= Seq::<ChangeView>::empty());
    }
    while i < existing.len()
        invariant
            i <= existing@.len(),
            vs == record_views(existing@),
            ttl == desired_ttl as int,
            goal == spec_diff_hostname(vs, hostname@, desired_ipv4@, desired_ipv6@, ttl),
            diff_inv(
                goal,
                vs,
                hostname@,
                desired_ipv4@,
                desired_ipv6@,
                ttl,
                i as int,
                v4_seen,
                v6_seen,
                change_views(changes@),
            ),
        decreases existing@.len() - i,
    {
        proof {
            assert(vs[i as int] == existing@[i as int]@);
        }
        let ghost acc = change_views(changes@);
        let rec = &existing[i];
        match rec.rtype {
            None => {
                proof {
                    lemma_diff_err(
                        goal,
                        vs,
                        hostname@,
                        desired_ipv4@,
                        desired_ipv6@,
                        ttl,
                        i as int,
                        v4_seen,
                        v6_seen,
                        acc,
                    );
                }
                return Err(
                    Route53IpUpdateError::MissingExpectedAwsReplyField(String::from_str("Type")),
                );
            },
            Some(RecordType::A) => {
                match parse_values(&rec.values, true) {
                    Err(bad) => {
                        proof {
                            lemma_diff_err(
                                goal,
                                vs,
                                hostname@,
                                desired_ipv4@,
                                desired_ipv6@,
                                ttl,
                                i as int,
                                v4_seen,
                                v6_seen,
                                acc,
                            );
                        }
                        return Err(Route53IpUpdateError::InvalidIpAddr(bad));
                    },
                    Ok(addrs) => {
                        let ttl_matches = match rec.ttl {
                            Some(t) => t == desired_ttl,
                            None => false,
                        };
                        let matched = rec.set_identifier.is_none() && ttl_matches
                            && same_address_set(&addrs, desired_ipv4);
                        proof {
                            lemma_diff_extend(
                                goal,
                                vs,
                                hostname@,
                                desired_ipv4@,
                                desired_ipv6@,
                                ttl,
                                i as int,
                                v4_seen,
                                v6_seen,
                                acc,
                            );
                        }
                        if matched {
                            v4_seen = true;
                            proof {
                                assert(acc + Seq::<ChangeView>::empty() =~= acc);
                            }
                        } else if v4_seen || desired_ipv4.len() == 0
                            || rec.set_identifier.is_some() {
                            changes.push(Change::Delete { record: rec.duplicate() });
                            proof {
                                assert(change_views(changes@) =~= acc + seq![
                                    ChangeView::Delete { record: vs[i as int] },
                                ]);
                            }
                        } else {
                            changes.push(
                                Change::Upsert {
                                    rtype: RecordType::A,
                                    name: String::from_str(hostname),
                                    ttl: desired_ttl,
                                    addresses: copy_addrs(desired_ipv4),
                                },
                            );
                            v4_seen = true;
                            proof {
                                assert(change_views(changes@) =~= acc + seq![
                                    upsert_view(RecordType::A, hostname@, ttl, desired_ipv4@),
                                ]);
                            }
                        }
                    },
                }
            },
            Some(RecordType::Aaaa) => {
                match parse_values(&rec.values, false) {
                    Err(bad) => {
                        proof {
                            lemma_diff_err(
                                goal,
                                vs,
                                hostname@,
                                desired_ipv4@,
                                desired_ipv6@,
                                ttl,
                                i as int,
                                v4_seen,
                                v6_seen,
                                acc,
                            );
                        }
                        return Err(Route53IpUpdateError::InvalidIpAddr(bad));
                    },
                    Ok(addrs) => {
                        let ttl_matches = match rec.ttl {
                            Some(t) => t == desired_ttl,
                            None => false,
                        };
                        let matched = rec.set_identifier.is_none() && ttl_matches
                            && same_address_set(&addrs, desired_ipv6);
                        proof {
                            lemma_diff_extend(
                                goal,
                                vs,
                                hostname@,
                                desired_ipv4@,
                                desired_ipv6@,
                                ttl,
                                i as int,
                                v4_seen,
                                v6_seen,
                                acc,
                            );
                        }
                        if matched {
                            v6_seen = true;
                            proof {
                                assert(acc + Seq::<ChangeView>::empty() =~= acc);
                            }
                        } else if v6_seen || desired_ipv6.len() == 0
                            || rec.set_identifier.is_some() {
                            changes.push(Change::Delete { record: rec.duplicate() });
                            proof {
                                assert(change_views(changes@) =~= acc + seq![
                                    ChangeView::Delete { record: vs[i as int] },
                                ]);
                            }
                        } else {
                            changes.push(
                                Change::Upsert {
                                    rtype: RecordType::Aaaa,
                                    name: String::from_str(hostname),
                                    ttl: desired_ttl,
                                    addresses: copy_addrs(desired_ipv6),
                                },
                            );
                            v6_seen = true;
                            proof {
                                assert(change_views(changes@) =~= acc + seq![
                                    upsert_view(RecordType::Aaaa, hostname@, ttl, desired_ipv6@),
                                ]);
                            }
                        }
                    },
                }
            },
            Some(RecordType::Cname) => {
                proof {
                    lemma_diff_extend(
                        goal,
                        vs,
                        hostname@,
                        desired_ipv4@,
                        desired_ipv6@,
                        ttl,
                        i as int,
                        v4_seen,
                        v6_seen,
                        acc,
                    );
                }
                changes.push(Change::Delete { record: rec.duplicate() });
                proof {
                    assert(change_views(changes@) =~= acc + seq![
                        ChangeView::Delete { record: vs[i as int] },
                    ]);
                }
            },
            Some(RecordType::Other) => {
                proof {
                    lemma_diff_extend(
                        goal,
                        vs,
                        hostname@,
                        desired_ipv4@,
                        desired_ipv6@,
                        ttl,
                        i as int,
                        v4_seen,
                        v6_seen,
                        acc,
                    );
                    assert(acc + Seq::<ChangeView>::empty() =~= acc);
                }
            },
        }
        i += 1;
    }
    proof {
        assert(vs.skip(existing@.len() as int) =~= Seq::<RecordSetView>::empty());
    }
    let ghost acc = change_views(changes@);
    if !v4_seen {
        changes.push(
            Change::Upsert {
                rtype: RecordType::A,
                name: String::from_str(hostname),
                ttl: desired_ttl,
                addresses: copy_addrs(desired_ipv4),
            },
        );
    }
    if !v6_seen {
        changes.push(
            Change::Upsert {
                rtype: RecordType::Aaaa,
                name: String::from_str(hostname),
                ttl: desired_ttl,
                addresses: copy_addrs(desired_ipv6),
            },
        );
    }
    proof {
        assert(change_views(changes@) =~= acc + trailing_creates(
            hostname@,
            desired_ipv4@,
            desired_ipv6@,
            ttl,
            v4_seen,
            v6_seen,
        ));
    }
    Ok(changes)
}

} // verus!
