//! The record-set reader: one hostname's records out of the provider's
//! paginated, name-then-type-ordered listing.
//!
//! Each page is consumed only up to the first record whose name differs from
//! the trailing-dot-normalized hostname — the listing is globally ordered,
//! so everything after it belongs to other names. While the provider reports
//! the listing truncated and no mismatch was seen, the continuation cursor
//! must be followed; a truncated reply without a cursor is a protocol
//! violation. The live loop around the provider is unverified I/O; it takes
//! every decision through `process_page`, and `read_record_sets` is that
//! loop run over a whole page sequence at once.

use vstd::prelude::*;
use vstd::string::{StrSliceExecFns, StringExecFns};
use crate::error::{ErrorView, Route53IpUpdateError};
use crate::records::{record_views, RecordSet, RecordSetView, RecordType};

verus! {

/// The hostname with a trailing dot, as the provider writes record names.
pub open spec fn spec_normalize_hostname(h: Seq<char>) -> Seq<char> {
    if h.len() > 0 && h.last() == '.' {
        h
    } else {
        h + seq!['.']
    }
}

/// Appends the trailing dot unless it is already there.
pub fn normalize_hostname(hostname: &str) -> (r: String)
    ensures
        r@ == spec_normalize_hostname(hostname@),
{
    let n = hostname.unicode_len();
    if n > 0 && hostname.get_char(n - 1) == '.' {
        String::from_str(hostname)
    } else {
        let mut r = String::from_str(hostname);
        r.append(".");
        proof {
            reveal_strlit(".");
            assert(r@ =~= hostname@ + seq!['.']);
        }
        r
    }
}

/// One page of the provider's listing: the records returned, whether the
/// listing was truncated, and the continuation cursor owed whenever it was.
#[derive(Debug)]
pub struct ListPage {
    pub records: Vec<RecordSet>,
    pub truncated: bool,
    pub next_name: Option<String>,
    pub next_type: Option<RecordType>,
}

/// The mathematical shape of a page.
pub struct ListPageView {
    pub records: Seq<RecordSetView>,
    pub truncated: bool,
    pub next_name: Option<Seq<char>>,
    pub next_type: Option<RecordType>,
}

impl View for ListPage {
    type V = ListPageView;

    open spec fn view(&self) -> ListPageView {
        ListPageView {
            records: record_views(self.records@),
            truncated: self.truncated,
            next_name: match &self.next_name {
                Some(s) => Some(s@),
                None => None,
            },
            next_type: self.next_type,
        }
    }
}

/// The longest prefix of a page's records whose names equal the normalized
/// hostname, and whether a mismatching record cut the listing short.
pub open spec fn matching_prefix(records: Seq<RecordSetView>, host: Seq<char>) -> (
    Seq<RecordSetView>,
    bool,
)
    decreases records.len(),
{
    if records.len() == 0 {
        (Seq::<RecordSetView>::empty(), false)
    } else if records[0].name == host {
        let (rest, stopped) = matching_prefix(records.drop_first(), host);
        (seq![records[0]] + rest, stopped)
    } else {
        (Seq::<RecordSetView>::empty(), true)
    }
}

/// What handling one page yields.
#[derive(Debug)]
pub enum PageOutcome {
    /// The hostname's records end on this page: these are the last of them.
    Finished(Vec<RecordSet>),
    /// The listing continues: the records kept, and the cursor to follow.
    Continue(Vec<RecordSet>, String, RecordType),
    /// A truncated reply without its continuation cursor.
    Failed(Route53IpUpdateError),
}

/// The mathematical shape of a page outcome.
pub enum PageOutcomeView {
    Finished(Seq<RecordSetView>),
    Continue(Seq<RecordSetView>, Seq<char>, RecordType),
    Failed(ErrorView),
}

/// The reader's decision on one page.
pub open spec fn spec_process_page(page: ListPageView, host: Seq<char>) -> PageOutcomeView {
    let (kept, stopped) = matching_prefix(page.records, host);
    if stopped || !page.truncated {
        PageOutcomeView::Finished(kept)
    } else {
        match page.next_name {
            None => PageOutcomeView::Failed(
                ErrorView::MissingExpectedAwsReplyField("NextRecordName"@),
            ),
            Some(n) => match page.next_type {
                None => PageOutcomeView::Failed(
                    ErrorView::MissingExpectedAwsReplyField("NextRecordType"@),
                ),
                Some(t) => PageOutcomeView::Continue(kept, n, t),
            },
        }
    }
}

/// The view of an executable page outcome.
pub open spec fn page_outcome_view(o: &PageOutcome) -> PageOutcomeView {
    match o {
        PageOutcome::Finished(kept) => PageOutcomeView::Finished(record_views(kept@)),
        PageOutcome::Continue(kept, n, t) => PageOutcomeView::Continue(
            record_views(kept@),
            n@,
            *t,
        ),
        PageOutcome::Failed(e) => PageOutcomeView::Failed(e@),
    }
}

/// Handles one page of the listing: keeps the records named like the
/// hostname, stops at the first mismatch, follows the cursor otherwise, and
/// fails exactly when a truncated reply omits its cursor.
pub fn process_page(page: &ListPage, hostname_dot: &String) -> (r: PageOutcome)
    ensures
        page_outcome_view(&r) == spec_process_page(page@, hostname_dot@),
{
    let ghost rv = record_views(page.records@);
    let n = page.records.len();
    let mut kept: Vec<RecordSet> = Vec::new();
    let mut stopped = false;
    let mut i: usize = 0;
    proof {
        assert(rv.skip(0) =~= rv);
        assert(record_views(kept@) =~= rv.take(0));
    }
    while i < n && !stopped
        invariant
            n == page.records@.len(),
            rv == record_views(page.records@),
            i <= n,
            !stopped ==> record_views(kept@) == rv.take(i as int),
            !stopped ==> matching_prefix(rv, hostname_dot@) == (
                rv.take(i as int) + matching_prefix(rv.skip(i as int), hostname_dot@).0,
                matching_prefix(rv.skip(i as int), hostname_dot@).1,
            ),
            stopped ==> matching_prefix(rv, hostname_dot@) == (record_views(kept@), true),
        decreases n - i + if stopped {
            0int
        } else {
            1int
        },
    {
        proof {
            assert(rv.skip(i as int)[0] == page.records@[i as int]@);
            assert(rv.skip(i as int).drop_first() =~= rv.skip(i + 1));
        }
        if page.records[i].name.eq(hostname_dot) {
            kept.push(page.records[i].duplicate());
            proof {
                assert(record_views(kept@) =~= rv.take(i + 1));
                assert(rv.take(i as int) + (seq![rv[i as int]] + matching_prefix(
                    rv.skip(i + 1),
                    hostname_dot@,
                ).0) =~= rv.take(i + 1) + matching_prefix(rv.skip(i + 1), hostname_dot@).0);
            }
            i += 1;
        } else {
            proof {
                assert(matching_prefix(rv.skip(i as int), hostname_dot@) == (
                    Seq::<RecordSetView>::empty(),
                    true,
                ));
                assert(rv.take(i as int) + Seq::<RecordSetView>::empty() =~= rv.take(i as int));
            }
            stopped = true;
        }
    }
    proof {
        if !stopped {
            assert(rv.skip(n as int) =~= Seq::<RecordSetView>::empty());
            assert(rv.take(n as int) + Seq::<RecordSetView>::empty() =~= rv.take(n as int));
            assert(rv.take(n as int) =~= rv);
        }
    }
    if stopped || !page.truncated {
        return PageOutcome::Finished(kept);
    }
    match &page.next_name {
        None => PageOutcome::Failed(
            Route53IpUpdateError::MissingExpectedAwsReplyField(
                String::from_str("NextRecordName"),
            ),
        ),
        Some(next_name) => match page.next_type {
            None => PageOutcome::Failed(
                Route53IpUpdateError::MissingExpectedAwsReplyField(
                    String::from_str("NextRecordType"),
                ),
            ),
            Some(next_type) => PageOutcome::Continue(kept, next_name.clone(), next_type),
        },
    }
}

/// The reader run over a page sequence: the records accumulated until a page
/// finishes the listing, the exact protocol error on a cursorless truncated
/// page, or nothing when the sequence runs out while the listing was still
/// truncated.
pub open spec fn spec_read_pages(pages: Seq<ListPageView>, host: Seq<char>) -> Option<
    Result<Seq<RecordSetView>, ErrorView>,
>
    decreases pages.len(),
{
    if pages.len() == 0 {
        None
    } else {
        match spec_process_page(pages[0], host) {
            PageOutcomeView::Finished(kept) => Some(Ok(kept)),
            PageOutcomeView::Failed(e) => Some(Err(e)),
            PageOutcomeView::Continue(kept, _n, _t) => match spec_read_pages(
                pages.drop_first(),
                host,
            ) {
                None => None,
                Some(Ok(rest)) => Some(Ok(kept + rest)),
                Some(Err(e)) => Some(Err(e)),
            },
        }
    }
}

/// The views of a sequence of pages.
pub open spec fn page_views(pages: Seq<ListPage>) -> Seq<ListPageView> {
    pages.map_values(|p: ListPage| p@)
}

/// Runs the reader over a page sequence; `None` when the sequence ends while
/// the listing was still truncated.
pub fn read_record_sets(pages: &Vec<ListPage>, hostname_dot: &String) -> (r: Option<
    Result<Vec<RecordSet>, Route53IpUpdateError>,
>)
    ensures
        match r {
            None => spec_read_pages(page_views(pages@), hostname_dot@) is None,
            Some(res) => match res {
                Ok(records) => spec_read_pages(page_views(pages@), hostname_dot@) == Some(
                    Ok::<Seq<RecordSetView>, ErrorView>(record_views(records@)),
                ),
                Err(e) => spec_read_pages(page_views(pages@), hostname_dot@) == Some(
                    Err::<Seq<RecordSetView>, ErrorView>(e@),
                ),
            },
        },
{
    let ghost pv = page_views(pages@);
    let n = pages.len();
    let mut results: Vec<RecordSet> = Vec::new();
    let mut i: usize = 0;
    proof {
        assert(pv.skip(0) =~= pv);
    }
    while i < n
        invariant
            n == pages@.len(),
            pv == page_views(pages@),
            i <= n,
            match spec_read_pages(pv.skip(i as int), hostname_dot@) {
                None => spec_read_pages(pv, hostname_dot@) is None,
                Some(rem) => match rem {
                    Ok(rest) => spec_read_pages(pv, hostname_dot@) == Some(
                        Ok::<Seq<RecordSetView>, ErrorView>(record_views(results@) + rest),
                    ),
                    Err(e) => spec_read_pages(pv, hostname_dot@) == Some(
                        Err::<Seq<RecordSetView>, ErrorView>(e),
                    ),
                },
            },
        decreases n - i,
    {
        proof {
            assert(pv.skip(i as int)[0] == pages@[i as int]@);
            assert(pv.skip(i as int).drop_first() =~= pv.skip(i + 1));
        }
        let ghost acc = record_views(results@);
        match process_page(&pages[i], hostname_dot) {
            PageOutcome::Finished(mut kept) => {
                let ghost keptv = record_views(kept@);
                results.append(&mut kept);
                proof {
                    assert(record_views(results@) =~= acc + keptv);
                }
                return Some(Ok(results));
            },
            PageOutcome::Failed(e) => {
                return Some(Err(e));
            },
            PageOutcome::Continue(mut kept, _next_name, _next_type) => {
                let ghost keptv = record_views(kept@);
                results.append(&mut kept);
                proof {
                    assert(record_views(results@) =~= acc + keptv);
                    if spec_read_pages(pv.skip(i + 1), hostname_dot@) is Some {
                        let rem = spec_read_pages(pv.skip(i + 1), hostname_dot@)->Some_0;
                        if rem is Ok {
                            assert(acc + (keptv + rem->Ok_0) =~= (acc + keptv) + rem->Ok_0);
                        }
                    }
                }
            },
        }
        i += 1;
    }
    proof {
        assert(pv.skip(n as int) =~= Seq::<ListPageView>::empty());
    }
    None
}

} // verus!
