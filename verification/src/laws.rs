//! Laws of the diff engine, proved from `diff_records` itself: idempotence,
//! the single managed slot per family, the unconditional removal of
//! routing-policy variants and CNAMEs, creation of absent families, and the
//! empty-desired no-op.

use vstd::prelude::*;
use crate::addr::IpAddress;
use crate::diff::{
    diff_records, diff_step, family_record_changes, parse_family, spec_diff_hostname,
    trailing_creates, upsert_view,
};
use crate::error::ErrorView;
use crate::records::{ChangeView, RecordSetView, RecordType};

verus! {

/// An A or AAAA record that already carries exactly the desired state of its
/// family: no set identifier, the desired addresses as a set, the desired
/// TTL.
pub open spec fn family_matches(
    r: RecordSetView,
    desired: Seq<IpAddress>,
    ttl: int,
    rtype: RecordType,
) -> bool {
    &&& r.set_identifier is None
    &&& parse_family(r.values, rtype is A) is Ok
    &&& (parse_family(r.values, rtype is A)->Ok_0).to_set() == desired.to_set()
    &&& r.ttl == Some(ttl)
}

/// A record the pass leaves alone: an A or AAAA record matching its family's
/// desired state, or a record of an unmanaged type.
pub open spec fn record_matches(
    r: RecordSetView,
    v4: Seq<IpAddress>,
    v6: Seq<IpAddress>,
    ttl: int,
) -> bool {
    match r.rtype {
        Some(RecordType::A) => family_matches(r, v4, ttl, RecordType::A),
        Some(RecordType::Aaaa) => family_matches(r, v6, ttl, RecordType::Aaaa),
        Some(RecordType::Other) => true,
        _ => false,
    }
}

/// An upsert of one family's managed record.
pub open spec fn is_family_upsert(c: ChangeView, rtype: RecordType) -> bool {
    match c {
        ChangeView::Upsert { rtype: rt, .. } => rt == rtype,
        _ => false,
    }
}

/// A deletion of a record of one type.
pub open spec fn is_family_delete(c: ChangeView, rtype: RecordType) -> bool {
    match c {
        ChangeView::Delete { record } => record.rtype == Some(rtype),
        _ => false,
    }
}

/// How many upserts of one family a change list holds.
pub open spec fn count_family_upserts(cs: Seq<ChangeView>, rtype: RecordType) -> int
    decreases cs.len(),
{
    if cs.len() == 0 {
        0
    } else {
        count_family_upserts(cs.drop_first(), rtype) + if is_family_upsert(cs[0], rtype) {
            1int
        } else {
            0int
        }
    }
}

proof fn lemma_count_concat(a: Seq<ChangeView>, b: Seq<ChangeView>, rtype: RecordType)
    ensures
        count_family_upserts(a + b, rtype) == count_family_upserts(a, rtype)
            + count_family_upserts(b, rtype),
    decreases a.len(),
{
    if a.len() == 0 {
        assert(a + b =~= b);
    } else {
        assert((a + b).drop_first() =~= a.drop_first() + b);
        lemma_count_concat(a.drop_first(), b, rtype);
    }
}

proof fn lemma_count_nonneg(cs: Seq<ChangeView>, rtype: RecordType)
    ensures
        count_family_upserts(cs, rtype) >= 0,
    decreases cs.len(),
{
    if cs.len() > 0 {
        lemma_count_nonneg(cs.drop_first(), rtype);
    }
}


proof fn lemma_count_empty(rtype: RecordType)
    ensures
        count_family_upserts(Seq::<ChangeView>::empty(), rtype) == 0,
{
}

proof fn lemma_count_singleton(c: ChangeView, rtype: RecordType)
    ensures
        count_family_upserts(seq![c], rtype) == if is_family_upsert(c, rtype) {
            1int
        } else {
            0int
        },
{
    assert(seq![c].drop_first() =~= Seq::<ChangeView>::empty());
    lemma_count_empty(rtype);
    assert(seq![c][0] == c);
}

/// What one A or AAAA record step can emit: at most one change, an upsert of
/// its own family only when the family was unsatisfied, and a satisfied flag
/// that never falls back.
proof fn lemma_family_step_shape(
    r: RecordSetView,
    hostname: Seq<char>,
    desired: Seq<IpAddress>,
    ttl: int,
    seen: bool,
    rtype: RecordType,
    rt2: RecordType,
)
    requires
        family_record_changes(r, hostname, desired, ttl, seen, rtype) is Ok,
    ensures
        ({
            let (cs, ns) = family_record_changes(r, hostname, desired, ttl, seen, rtype)->Ok_0;
            &&& (seen ==> ns)
            &&& 0 <= count_family_upserts(cs, rt2)
            &&& count_family_upserts(cs, rt2) <= 1
            &&& (rt2 != rtype ==> count_family_upserts(cs, rt2) == 0)
            &&& (seen ==> count_family_upserts(cs, rt2) == 0)
            &&& (count_family_upserts(cs, rtype) >= 1 ==> ns)
        }),
{
    let (cs, ns) = family_record_changes(r, hostname, desired, ttl, seen, rtype)->Ok_0;
    let addrs = parse_family(r.values, rtype is A)->Ok_0;
    if r.set_identifier is None && addrs.to_set() == desired.to_set() && r.ttl == Some(ttl) {
        lemma_count_empty(rt2);
        lemma_count_empty(rtype);
    } else if seen || desired.len() == 0 || r.set_identifier is Some {
        lemma_count_singleton(ChangeView::Delete { record: r }, rt2);
        lemma_count_singleton(ChangeView::Delete { record: r }, rtype);
    } else {
        lemma_count_singleton(upsert_view(rtype, hostname, ttl, desired), rt2);
        lemma_count_singleton(upsert_view(rtype, hostname, ttl, desired), rtype);
    }
}

/// The satisfaction flag of a family, once set, admits no further upsert of
/// that family; and in any case each family is upserted at most once.
proof fn lemma_upsert_counts(
    existing: Seq<RecordSetView>,
    hostname: Seq<char>,
    v4: Seq<IpAddress>,
    v6: Seq<IpAddress>,
    ttl: int,
    s4: bool,
    s6: bool,
)
    requires
        diff_records(existing, hostname, v4, v6, ttl, s4, s6) is Ok,
    ensures
        ({
            let cs = diff_records(existing, hostname, v4, v6, ttl, s4, s6)->Ok_0;
            &&& count_family_upserts(cs, RecordType::A) <= 1
            &&& (s4 ==> count_family_upserts(cs, RecordType::A) == 0)
            &&& count_family_upserts(cs, RecordType::Aaaa) <= 1
            &&& (s6 ==> count_family_upserts(cs, RecordType::Aaaa) == 0)
        }),
    decreases existing.len(),
{
    let cs = diff_records(existing, hostname, v4, v6, ttl, s4, s6)->Ok_0;
    if existing.len() == 0 {
        assert(cs == trailing_creates(hostname, v4, v6, ttl, s4, s6));
        let ca = if !s4 {
            seq![upsert_view(RecordType::A, hostname, ttl, v4)]
        } else {
            Seq::<ChangeView>::empty()
        };
        let cb = if !s6 {
            seq![upsert_view(RecordType::Aaaa, hostname, ttl, v6)]
        } else {
            Seq::<ChangeView>::empty()
        };
        assert(cs == ca + cb);
        lemma_count_concat(ca, cb, RecordType::A);
        lemma_count_concat(ca, cb, RecordType::Aaaa);
        if !s4 {
            lemma_count_singleton(upsert_view(RecordType::A, hostname, ttl, v4), RecordType::A);
            lemma_count_singleton(upsert_view(RecordType::A, hostname, ttl, v4), RecordType::Aaaa);
        } else {
            lemma_count_empty(RecordType::A);
            lemma_count_empty(RecordType::Aaaa);
        }
        if !s6 {
            lemma_count_singleton(upsert_view(RecordType::Aaaa, hostname, ttl, v6), RecordType::A);
            lemma_count_singleton(
                upsert_view(RecordType::Aaaa, hostname, ttl, v6),
                RecordType::Aaaa,
            );
        } else {
            lemma_count_empty(RecordType::A);
            lemma_count_empty(RecordType::Aaaa);
        }
    } else {
        let step = diff_step(existing[0], hostname, v4, v6, ttl, s4, s6);
        let (c0, n4, n6) = step->Ok_0;
        let rest = diff_records(existing.drop_first(), hostname, v4, v6, ttl, n4, n6)->Ok_0;
        lemma_upsert_counts(existing.drop_first(), hostname, v4, v6, ttl, n4, n6);
        lemma_count_concat(c0, rest, RecordType::A);
        lemma_count_concat(c0, rest, RecordType::Aaaa);
        lemma_count_nonneg(rest, RecordType::A);
        lemma_count_nonneg(rest, RecordType::Aaaa);
        match existing[0].rtype {
            None => {
                assert(false);
            },
            Some(RecordType::A) => {
                lemma_family_step_shape(
                    existing[0],
                    hostname,
                    v4,
                    ttl,
                    s4,
                    RecordType::A,
                    RecordType::A,
                );
                lemma_family_step_shape(
                    existing[0],
                    hostname,
                    v4,
                    ttl,
                    s4,
                    RecordType::A,
                    RecordType::Aaaa,
                );
            },
            Some(RecordType::Aaaa) => {
                lemma_family_step_shape(
                    existing[0],
                    hostname,
                    v6,
                    ttl,
                    s6,
                    RecordType::Aaaa,
                    RecordType::A,
                );
                lemma_family_step_shape(
                    existing[0],
                    hostname,
                    v6,
                    ttl,
                    s6,
                    RecordType::Aaaa,
                    RecordType::Aaaa,
                );
            },
            Some(RecordType::Cname) => {
                lemma_count_singleton(
                    ChangeView::Delete { record: existing[0] },
                    RecordType::A,
                );
                lemma_count_singleton(
                    ChangeView::Delete { record: existing[0] },
                    RecordType::Aaaa,
                );
            },
            Some(RecordType::Other) => {
                lemma_count_empty(RecordType::A);
                lemma_count_empty(RecordType::Aaaa);
            },
        }
    }
}

/// Every upsert the pass emits points the managed record of its family at
/// exactly the desired addresses, the managed hostname and the desired TTL
/// (in particular it never carries a set identifier).
proof fn lemma_upserts_canonical(
    existing: Seq<RecordSetView>,
    hostname: Seq<char>,
    v4: Seq<IpAddress>,
    v6: Seq<IpAddress>,
    ttl: int,
    s4: bool,
    s6: bool,
)
    requires
        diff_records(existing, hostname, v4, v6, ttl, s4, s6) is Ok,
    ensures
        ({
            let cs = diff_records(existing, hostname, v4, v6, ttl, s4, s6)->Ok_0;
            forall|k: int|
                0 <= k < cs.len() && (#[trigger] cs[k]) is Upsert ==> cs[k] == upsert_view(
                    RecordType::A,
                    hostname,
                    ttl,
                    v4,
                ) || cs[k] == upsert_view(RecordType::Aaaa, hostname, ttl, v6)
        }),
    decreases existing.len(),
{
    let cs = diff_records(existing, hostname, v4, v6, ttl, s4, s6)->Ok_0;
    if existing.len() == 0 {
    } else {
        let step = diff_step(existing[0], hostname, v4, v6, ttl, s4, s6);
        let (c0, n4, n6) = step->Ok_0;
        let rest = diff_records(existing.drop_first(), hostname, v4, v6, ttl, n4, n6)->Ok_0;
        lemma_upserts_canonical(existing.drop_first(), hostname, v4, v6, ttl, n4, n6);
        assert(cs == c0 + rest);
        assert forall|k: int| 0 <= k < cs.len() && (#[trigger] cs[k]) is Upsert implies cs[k]
            == upsert_view(RecordType::A, hostname, ttl, v4) || cs[k] == upsert_view(
            RecordType::Aaaa,
            hostname,
            ttl,
            v6,
        ) by {
            if k < c0.len() {
                assert(cs[k] == c0[k]);
            } else {
                assert(cs[k] == rest[k - c0.len()]);
            }
        }
    }
}

/// How the pass disposes of each existing record, given that it succeeds:
/// a CNAME is deleted; a routing-policy variant of a managed family is
/// deleted; an unrouted A or AAAA record that does not match its family's
/// desired state is deleted unless it took the family's single upsert slot.
proof fn lemma_record_disposition(
    existing: Seq<RecordSetView>,
    hostname: Seq<char>,
    v4: Seq<IpAddress>,
    v6: Seq<IpAddress>,
    ttl: int,
    s4: bool,
    s6: bool,
    i: int,
)
    requires
        diff_records(existing, hostname, v4, v6, ttl, s4, s6) is Ok,
        0 <= i < existing.len(),
    ensures
        ({
            let cs = diff_records(existing, hostname, v4, v6, ttl, s4, s6)->Ok_0;
            let r = existing[i];
            &&& (r.rtype == Some(RecordType::Cname) ==> cs.contains(
                ChangeView::Delete { record: r },
            ))
            &&& ((r.rtype == Some(RecordType::A) || r.rtype == Some(RecordType::Aaaa))
                && r.set_identifier is Some ==> cs.contains(ChangeView::Delete { record: r }))
            &&& (r.rtype == Some(RecordType::A) && r.set_identifier is None && !family_matches(
                r,
                v4,
                ttl,
                RecordType::A,
            ) ==> cs.contains(ChangeView::Delete { record: r }) || cs.contains(
                upsert_view(RecordType::A, hostname, ttl, v4),
            ))
            &&& (r.rtype == Some(RecordType::Aaaa) && r.set_identifier is None && !family_matches(
                r,
                v6,
                ttl,
                RecordType::Aaaa,
            ) ==> cs.contains(ChangeView::Delete { record: r }) || cs.contains(
                upsert_view(RecordType::Aaaa, hostname, ttl, v6),
            ))
        }),
    decreases existing.len(),
{
    let cs = diff_records(existing, hostname, v4, v6, ttl, s4, s6)->Ok_0;
    let step = diff_step(existing[0], hostname, v4, v6, ttl, s4, s6);
    let (c0, n4, n6) = step->Ok_0;
    let rest = diff_records(existing.drop_first(), hostname, v4, v6, ttl, n4, n6)->Ok_0;
    assert(cs == c0 + rest);
    if i == 0 {
        let r = existing[0];
        if c0.len() >= 1 {
            assert(cs[0] == c0[0]);
            assert(cs.contains(cs[0]));
        }
    } else {
        lemma_record_disposition(
            existing.drop_first(),
            hostname,
            v4,
            v6,
            ttl,
            n4,
            n6,
            i - 1,
        );
        assert(existing.drop_first()[i - 1] == existing[i]);
        assert forall|c: ChangeView| rest.contains(c) implies cs.contains(c) by {
            let k = choose|k: int| 0 <= k < rest.len() && rest[k] == c;
            assert(cs[c0.len() + k] == c);
        }
    }
}

/// When every existing record already matches the desired state and each
/// non-empty desired family has a record, the pass changes nothing.
proof fn lemma_diff_all_matching(
    existing: Seq<RecordSetView>,
    hostname: Seq<char>,
    v4: Seq<IpAddress>,
    v6: Seq<IpAddress>,
    ttl: int,
    s4: bool,
    s6: bool,
)
    requires
        forall|i: int|
            0 <= i < existing.len() ==> record_matches(#[trigger] existing[i], v4, v6, ttl),
        v4.len() == 0 ==> s4,
        v6.len() == 0 ==> s6,
        s4 || exists|i: int|
            0 <= i < existing.len() && (#[trigger] existing[i]).rtype == Some(RecordType::A),
        s6 || exists|i: int|
            0 <= i < existing.len() && (#[trigger] existing[i]).rtype == Some(RecordType::Aaaa),
    ensures
        diff_records(existing, hostname, v4, v6, ttl, s4, s6) == Ok::<Seq<ChangeView>, ErrorView>(
            Seq::<ChangeView>::empty(),
        ),
    decreases existing.len(),
{
    if existing.len() == 0 {
        assert(trailing_creates(hostname, v4, v6, ttl, s4, s6) =~= Seq::<ChangeView>::empty());
    } else {
        let r = existing[0];
        let step = diff_step(r, hostname, v4, v6, ttl, s4, s6);
        assert(record_matches(r, v4, v6, ttl));
        let (n4, n6): (bool, bool) = match r.rtype {
            Some(RecordType::A) => (true, s6),
            Some(RecordType::Aaaa) => (s4, true),
            _ => (s4, s6),
        };
        assert(step == Ok::<(Seq<ChangeView>, bool, bool), ErrorView>(
            (Seq::<ChangeView>::empty(), n4, n6),
        ));
        assert forall|j: int|
            0 <= j < existing.drop_first().len() implies record_matches(
            #[trigger] existing.drop_first()[j],
            v4,
            v6,
            ttl,
        ) by {
            assert(existing.drop_first()[j] == existing[j + 1]);
        }
        if !n4 {
            let w = choose|i: int|
                0 <= i < existing.len() && (#[trigger] existing[i]).rtype == Some(RecordType::A);
            assert(w != 0);
            assert(existing.drop_first()[w - 1] == existing[w]);
        }
        if !n6 {
            let w = choose|i: int|
                0 <= i < existing.len() && (#[trigger] existing[i]).rtype == Some(
                    RecordType::Aaaa,
                );
            assert(w != 0);
            assert(existing.drop_first()[w - 1] == existing[w]);
        }
        lemma_diff_all_matching(existing.drop_first(), hostname, v4, v6, ttl, n4, n6);
        assert(Seq::<ChangeView>::empty() + Seq::<ChangeView>::empty() =~= Seq::<
            ChangeView,
        >::empty());
    }
}

/// When a family has no record in the zone and its flag is unset, the pass
/// ends with the flag still unset and emits no upsert of that family during
/// the scan, so exactly the one trailing create appears.
proof fn lemma_absent_family(
    existing: Seq<RecordSetView>,
    hostname: Seq<char>,
    v4: Seq<IpAddress>,
    v6: Seq<IpAddress>,
    ttl: int,
    s4: bool,
    s6: bool,
    rtype: RecordType,
)
    requires
        diff_records(existing, hostname, v4, v6, ttl, s4, s6) is Ok,
        rtype == RecordType::A || rtype == RecordType::Aaaa,
        forall|i: int| 0 <= i < existing.len() ==> (#[trigger] existing[i]).rtype != Some(rtype),
        !(if rtype is A {
            s4
        } else {
            s6
        }),
    ensures
        ({
            let cs = diff_records(existing, hostname, v4, v6, ttl, s4, s6)->Ok_0;
            let desired = if rtype is A {
                v4
            } else {
                v6
            };
            cs.contains(upsert_view(rtype, hostname, ttl, desired)) && count_family_upserts(
                cs,
                rtype,
            ) == 1
        }),
    decreases existing.len(),
{
    let cs = diff_records(existing, hostname, v4, v6, ttl, s4, s6)->Ok_0;
    let desired = if rtype is A {
        v4
    } else {
        v6
    };
    if existing.len() == 0 {
        let ca = if !s4 {
            seq![upsert_view(RecordType::A, hostname, ttl, v4)]
        } else {
            Seq::<ChangeView>::empty()
        };
        let cb = if !s6 {
            seq![upsert_view(RecordType::Aaaa, hostname, ttl, v6)]
        } else {
            Seq::<ChangeView>::empty()
        };
        assert(cs == ca + cb);
        lemma_count_concat(ca, cb, rtype);
        lemma_count_empty(rtype);
        if !s4 {
            lemma_count_singleton(upsert_view(RecordType::A, hostname, ttl, v4), rtype);
        }
        if !s6 {
            lemma_count_singleton(upsert_view(RecordType::Aaaa, hostname, ttl, v6), rtype);
        }
        if rtype is A {
            assert(cs[0] == upsert_view(RecordType::A, hostname, ttl, v4));
            assert(cs.contains(cs[0]));
        } else {
            let k = ca.len() as int;
            assert(cs[k] == upsert_view(RecordType::Aaaa, hostname, ttl, v6));
            assert(cs.contains(cs[k]));
        }
    } else {
        let step = diff_step(existing[0], hostname, v4, v6, ttl, s4, s6);
        let (c0, n4, n6) = step->Ok_0;
        let rest = diff_records(existing.drop_first(), hostname, v4, v6, ttl, n4, n6)->Ok_0;
        assert(cs == c0 + rest);
        // the first record is not of this family, so the family's flag and
        // change count are untouched by the step
        assert(!(if rtype is A {
            n4
        } else {
            n6
        }));
        assert forall|j: int|
            0 <= j < existing.drop_first().len() implies (#[trigger] existing.drop_first()[j]).rtype
            != Some(rtype) by {
            assert(existing.drop_first()[j] == existing[j + 1]);
        }
        lemma_absent_family(existing.drop_first(), hostname, v4, v6, ttl, n4, n6, rtype);
        lemma_count_concat(c0, rest, rtype);
        match existing[0].rtype {
            None => {
                assert(false);
            },
            Some(RecordType::A) => {
                lemma_family_step_shape(existing[0], hostname, v4, ttl, s4, RecordType::A, rtype);
            },
            Some(RecordType::Aaaa) => {
                lemma_family_step_shape(
                    existing[0],
                    hostname,
                    v6,
                    ttl,
                    s6,
                    RecordType::Aaaa,
                    rtype,
                );
            },
            Some(RecordType::Cname) => {
                lemma_count_singleton(ChangeView::Delete { record: existing[0] }, rtype);
            },
            Some(RecordType::Other) => {
                lemma_count_empty(rtype);
            },
        }
        let w = choose|k: int|
            0 <= k < rest.len() && rest[k] == upsert_view(rtype, hostname, ttl, desired);
        assert(cs[c0.len() + w] == upsert_view(rtype, hostname, ttl, desired));
        assert(cs.contains(cs[c0.len() + w]));
    }
}

/// When a family has no record in the zone and its flag is already set, the
/// pass emits no change of that family at all.
proof fn lemma_no_family_changes(
    existing: Seq<RecordSetView>,
    hostname: Seq<char>,
    v4: Seq<IpAddress>,
    v6: Seq<IpAddress>,
    ttl: int,
    s4: bool,
    s6: bool,
    rtype: RecordType,
)
    requires
        diff_records(existing, hostname, v4, v6, ttl, s4, s6) is Ok,
        rtype == RecordType::A || rtype == RecordType::Aaaa,
        forall|i: int| 0 <= i < existing.len() ==> (#[trigger] existing[i]).rtype != Some(rtype),
        if rtype is A {
            s4
        } else {
            s6
        },
    ensures
        ({
            let cs = diff_records(existing, hostname, v4, v6, ttl, s4, s6)->Ok_0;
            forall|k: int|
                0 <= k < cs.len() ==> !is_family_upsert(#[trigger] cs[k], rtype)
                    && !is_family_delete(cs[k], rtype)
        }),
    decreases existing.len(),
{
    let cs = diff_records(existing, hostname, v4, v6, ttl, s4, s6)->Ok_0;
    if existing.len() == 0 {
        let ca = if !s4 {
            seq![upsert_view(RecordType::A, hostname, ttl, v4)]
        } else {
            Seq::<ChangeView>::empty()
        };
        let cb = if !s6 {
            seq![upsert_view(RecordType::Aaaa, hostname, ttl, v6)]
        } else {
            Seq::<ChangeView>::empty()
        };
        assert(cs == ca + cb);
    } else {
        let step = diff_step(existing[0], hostname, v4, v6, ttl, s4, s6);
        let (c0, n4, n6) = step->Ok_0;
        let rest = diff_records(existing.drop_first(), hostname, v4, v6, ttl, n4, n6)->Ok_0;
        assert(cs == c0 + rest);
        assert(if rtype is A {
            n4
        } else {
            n6
        });
        assert forall|j: int|
            0 <= j < existing.drop_first().len() implies (#[trigger] existing.drop_first()[j]).rtype
            != Some(rtype) by {
            assert(existing.drop_first()[j] == existing[j + 1]);
        }
        lemma_no_family_changes(existing.drop_first(), hostname, v4, v6, ttl, n4, n6, rtype);
        assert forall|k: int|
            0 <= k < cs.len() implies !is_family_upsert(#[trigger] cs[k], rtype)
            && !is_family_delete(cs[k], rtype) by {
            if k < c0.len() {
                assert(cs[k] == c0[k]);
            } else {
                assert(cs[k] == rest[k - c0.len()]);
            }
        }
    }
}

/// Idempotence: when every existing record already matches the desired state
/// (values as a set, TTL, no set identifier) and each non-empty desired
/// family is present, the diff is empty.
pub proof fn lemma_diff_idempotent(
    existing: Seq<RecordSetView>,
    hostname: Seq<char>,
    v4: Seq<IpAddress>,
    v6: Seq<IpAddress>,
    ttl: int,
)
    requires
        forall|i: int|
            0 <= i < existing.len() ==> record_matches(#[trigger] existing[i], v4, v6, ttl),
        v4.len() > 0 ==> exists|i: int|
            0 <= i < existing.len() && (#[trigger] existing[i]).rtype == Some(RecordType::A),
        v6.len() > 0 ==> exists|i: int|
            0 <= i < existing.len() && (#[trigger] existing[i]).rtype == Some(RecordType::Aaaa),
    ensures
        spec_diff_hostname(existing, hostname, v4, v6, ttl) == Ok::<Seq<ChangeView>, ErrorView>(
            Seq::<ChangeView>::empty(),
        ),
{
    lemma_diff_all_matching(
        existing,
        hostname,
        v4,
        v6,
        ttl,
        v4.len() == 0,
        v6.len() == 0,
    );
}

/// Exactly one slot: a successful diff upserts each family at most once,
/// however many records the zone holds.
pub proof fn lemma_diff_at_most_one_upsert(
    existing: Seq<RecordSetView>,
    hostname: Seq<char>,
    v4: Seq<IpAddress>,
    v6: Seq<IpAddress>,
    ttl: int,
)
    requires
        spec_diff_hostname(existing, hostname, v4, v6, ttl) is Ok,
    ensures
        ({
            let cs = spec_diff_hostname(existing, hostname, v4, v6, ttl)->Ok_0;
            &&& count_family_upserts(cs, RecordType::A) <= 1
            &&& count_family_upserts(cs, RecordType::Aaaa) <= 1
        }),
{
    lemma_upsert_counts(existing, hostname, v4, v6, ttl, v4.len() == 0, v6.len() == 0);
}

/// Exactly one slot, the other half: every unrouted A or AAAA record that
/// does not match its family's desired state is deleted, unless it took the
/// family's single upsert slot.
pub proof fn lemma_diff_nonmatching_handled(
    existing: Seq<RecordSetView>,
    hostname: Seq<char>,
    v4: Seq<IpAddress>,
    v6: Seq<IpAddress>,
    ttl: int,
    i: int,
)
    requires
        spec_diff_hostname(existing, hostname, v4, v6, ttl) is Ok,
        0 <= i < existing.len(),
        existing[i].set_identifier is None,
        existing[i].rtype == Some(RecordType::A) && !family_matches(
            existing[i],
            v4,
            ttl,
            RecordType::A,
        ) || existing[i].rtype == Some(RecordType::Aaaa) && !family_matches(
            existing[i],
            v6,
            ttl,
            RecordType::Aaaa,
        ),
    ensures
        ({
            let cs = spec_diff_hostname(existing, hostname, v4, v6, ttl)->Ok_0;
            cs.contains(ChangeView::Delete { record: existing[i] }) || (if existing[i].rtype
                == Some(RecordType::A) {
                cs.contains(upsert_view(RecordType::A, hostname, ttl, v4))
            } else {
                cs.contains(upsert_view(RecordType::Aaaa, hostname, ttl, v6))
            })
        }),
{
    lemma_record_disposition(
        existing,
        hostname,
        v4,
        v6,
        ttl,
        v4.len() == 0,
        v6.len() == 0,
        i,
    );
}

/// Foreign-record removal: a record carrying a set identifier is always
/// deleted when the diff succeeds, whatever its values; and since every
/// upsert a successful diff emits is the canonical one of its family
/// (`lemma_diff_upserts_canonical`), such a record is never upserted.
pub proof fn lemma_diff_foreign_deleted(
    existing: Seq<RecordSetView>,
    hostname: Seq<char>,
    v4: Seq<IpAddress>,
    v6: Seq<IpAddress>,
    ttl: int,
    i: int,
)
    requires
        spec_diff_hostname(existing, hostname, v4, v6, ttl) is Ok,
        0 <= i < existing.len(),
        existing[i].rtype == Some(RecordType::A) || existing[i].rtype == Some(RecordType::Aaaa),
        existing[i].set_identifier is Some,
    ensures
        spec_diff_hostname(existing, hostname, v4, v6, ttl)->Ok_0.contains(
            ChangeView::Delete { record: existing[i] },
        ),
{
    lemma_record_disposition(
        existing,
        hostname,
        v4,
        v6,
        ttl,
        v4.len() == 0,
        v6.len() == 0,
        i,
    );
}

/// Every upsert a successful diff emits is the canonical record of its
/// family: the managed hostname, the desired TTL, the desired addresses, no
/// set identifier.
pub proof fn lemma_diff_upserts_canonical(
    existing: Seq<RecordSetView>,
    hostname: Seq<char>,
    v4: Seq<IpAddress>,
    v6: Seq<IpAddress>,
    ttl: int,
)
    requires
        spec_diff_hostname(existing, hostname, v4, v6, ttl) is Ok,
    ensures
        ({
            let cs = spec_diff_hostname(existing, hostname, v4, v6, ttl)->Ok_0;
            forall|k: int|
                0 <= k < cs.len() && (#[trigger] cs[k]) is Upsert ==> cs[k] == upsert_view(
                    RecordType::A,
                    hostname,
                    ttl,
                    v4,
                ) || cs[k] == upsert_view(RecordType::Aaaa, hostname, ttl, v6)
        }),
{
    lemma_upserts_canonical(existing, hostname, v4, v6, ttl, v4.len() == 0, v6.len() == 0);
}

/// CNAME exclusion: a CNAME at the managed name is always deleted when the
/// diff succeeds.
pub proof fn lemma_diff_cname_deleted(
    existing: Seq<RecordSetView>,
    hostname: Seq<char>,
    v4: Seq<IpAddress>,
    v6: Seq<IpAddress>,
    ttl: int,
    i: int,
)
    requires
        spec_diff_hostname(existing, hostname, v4, v6, ttl) is Ok,
        0 <= i < existing.len(),
        existing[i].rtype == Some(RecordType::Cname),
    ensures
        spec_diff_hostname(existing, hostname, v4, v6, ttl)->Ok_0.contains(
            ChangeView::Delete { record: existing[i] },
        ),
{
    lemma_record_disposition(
        existing,
        hostname,
        v4,
        v6,
        ttl,
        v4.len() == 0,
        v6.len() == 0,
        i,
    );
}

/// Create-when-absent: when a family has no record in the zone and its
/// desired set is non-empty, a successful diff holds exactly one upsert of
/// that family, the canonical create.
pub proof fn lemma_diff_create_when_absent(
    existing: Seq<RecordSetView>,
    hostname: Seq<char>,
    v4: Seq<IpAddress>,
    v6: Seq<IpAddress>,
    ttl: int,
    rtype: RecordType,
)
    requires
        spec_diff_hostname(existing, hostname, v4, v6, ttl) is Ok,
        rtype == RecordType::A || rtype == RecordType::Aaaa,
        forall|i: int| 0 <= i < existing.len() ==> (#[trigger] existing[i]).rtype != Some(rtype),
        (if rtype is A {
            v4.len()
        } else {
            v6.len()
        }) > 0,
    ensures
        ({
            let cs = spec_diff_hostname(existing, hostname, v4, v6, ttl)->Ok_0;
            let desired = if rtype is A {
                v4
            } else {
                v6
            };
            cs.contains(upsert_view(rtype, hostname, ttl, desired)) && count_family_upserts(
                cs,
                rtype,
            ) == 1
        }),
{
    lemma_absent_family(
        existing,
        hostname,
        v4,
        v6,
        ttl,
        v4.len() == 0,
        v6.len() == 0,
        rtype,
    );
}

/// Empty-desired no-op: when a family's desired set is empty and the zone
/// holds no record of it, a successful diff holds no change of that family.
pub proof fn lemma_diff_empty_desired_noop(
    existing: Seq<RecordSetView>,
    hostname: Seq<char>,
    v4: Seq<IpAddress>,
    v6: Seq<IpAddress>,
    ttl: int,
    rtype: RecordType,
)
    requires
        spec_diff_hostname(existing, hostname, v4, v6, ttl) is Ok,
        rtype == RecordType::A || rtype == RecordType::Aaaa,
        forall|i: int| 0 <= i < existing.len() ==> (#[trigger] existing[i]).rtype != Some(rtype),
        (if rtype is A {
            v4.len()
        } else {
            v6.len()
        }) == 0,
    ensures
        ({
            let cs = spec_diff_hostname(existing, hostname, v4, v6, ttl)->Ok_0;
            forall|k: int|
                0 <= k < cs.len() ==> !is_family_upsert(#[trigger] cs[k], rtype)
                    && !is_family_delete(cs[k], rtype)
        }),
{
    lemma_no_family_changes(
        existing,
        hostname,
        v4,
        v6,
        ttl,
        v4.len() == 0,
        v6.len() == 0,
        rtype,
    );
}

} // verus!
