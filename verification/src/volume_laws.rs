//! What holds of the reports on request volumes, whatever was observed.

use crate::concentration::ConcentrationModel;
use crate::sums::{lemma_list_sum_total, lemma_sum_empty, lemma_sum_insert, list_sum};
use crate::tracking::{
    path_requests, source_requests, Observation, PathBookModel, PathModel, SourceBookModel,
    SourceModel,
};
use crate::volume_report::{
    is_private_report, path_names, source_names, PrivatePathConcentration,
    PrivateRequestConcentrationReport, PrivateSourceConcentration,
};
use vstd::prelude::*;

verus! {

/// The requests of all reported paths together.
pub open spec fn path_total(r: Seq<PrivatePathConcentration>) -> nat
    decreases r.len(),
{
    if r.len() == 0 {
        0
    } else {
        path_total(r.drop_last()) + r.last().summary.requests as nat
    }
}

/// The requests of all reported sources together.
pub open spec fn source_total(r: Seq<PrivateSourceConcentration>) -> nat
    decreases r.len(),
{
    if r.len() == 0 {
        0
    } else {
        source_total(r.drop_last()) + r.last().requests as nat
    }
}

/// Whether a report counts every request: for paths and for sources alike it is in the list, was
/// counted as beyond the bound, or had none.
pub open spec fn adds_up(r: PrivateRequestConcentrationReport) -> bool {
    &&& r.summary.total_requests == path_total(r.paths@) + r.summary.paths_beyond_tracking_cap
        + r.summary.requests_without_uri_path
    &&& r.summary.total_requests == source_total(r.source_ips@)
        + r.summary.source_ips_beyond_tracking_cap + r.summary.requests_without_source_ip
    &&& r.paths@.len() == r.summary.distinct_uri_paths
    &&& r.source_ips@.len() == r.summary.distinct_source_ips
}

proof fn lemma_path_total(r: Seq<PrivatePathConcentration>, paths: Map<Seq<char>, PathModel>)
    requires
        forall|i: int|
            0 <= i < r.len() ==> paths.dom().contains((#[trigger] r[i]).uri_path@)
                && r[i].summary.requests == paths[r[i].uri_path@].tally.requests,
    ensures
        path_total(r) == list_sum(path_names(r), path_requests(paths)),
    decreases r.len(),
{
    if r.len() > 0 {
        let front = r.drop_last();
        assert forall|i: int| 0 <= i < front.len() implies paths.dom().contains(
            (#[trigger] front[i]).uri_path@,
        ) && front[i].summary.requests == paths[front[i].uri_path@].tally.requests by {
            assert(r[i] == front[i]);
        }
        lemma_path_total(front, paths);
        assert(path_names(r).drop_last() =~= path_names(front));
        assert(r[r.len() - 1] == r.last());
    }
}

proof fn lemma_source_total(
    r: Seq<PrivateSourceConcentration>,
    sources: Map<Seq<char>, SourceModel>,
)
    requires
        forall|i: int|
            0 <= i < r.len() ==> sources.dom().contains((#[trigger] r[i]).source_ip@)
                && r[i].requests == sources[r[i].source_ip@].tally.requests,
    ensures
        source_total(r) == list_sum(source_names(r), source_requests(sources)),
    decreases r.len(),
{
    if r.len() > 0 {
        let front = r.drop_last();
        assert forall|i: int| 0 <= i < front.len() implies sources.dom().contains(
            (#[trigger] front[i]).source_ip@,
        ) && front[i].requests == sources[front[i].source_ip@].tally.requests by {
            assert(r[i] == front[i]);
        }
        lemma_source_total(front, sources);
        assert(source_names(r).drop_last() =~= source_names(front));
        assert(r[r.len() - 1] == r.last());
    }
}

/// A report of a state that accounts for its requests accounts for them too.
pub proof fn reports_add_up(
    r: PrivateRequestConcentrationReport,
    m: ConcentrationModel,
    with_keys: bool,
)
    requires
        is_private_report(r, m, with_keys),
        m.paths.paths.dom().finite(),
        m.sources.sources.dom().finite(),
        m.paths.accounts_for(m.tally.requests),
        m.sources.accounts_for(m.tally.requests),
    ensures
        adds_up(r),
{
    let paths = path_names(r.paths@);
    let sources = source_names(r.source_ips@);
    assert(path_requests(m.paths.paths).dom() =~= m.paths.paths.dom());
    assert(source_requests(m.sources.sources).dom() =~= m.sources.sources.dom());
    assert forall|i: int| 0 <= i < r.paths@.len() implies m.paths.paths.dom().contains(
        (#[trigger] r.paths@[i]).uri_path@,
    ) by {
        assert(paths[i] == r.paths@[i].uri_path@);
        assert(paths.to_set().contains(paths[i]));
    }
    assert forall|i: int| 0 <= i < r.source_ips@.len() implies m.sources.sources.dom().contains(
        (#[trigger] r.source_ips@[i]).source_ip@,
    ) by {
        assert(sources[i] == r.source_ips@[i].source_ip@);
        assert(sources.to_set().contains(sources[i]));
    }
    lemma_path_total(r.paths@, m.paths.paths);
    lemma_source_total(r.source_ips@, m.sources.sources);
    lemma_list_sum_total(paths, path_requests(m.paths.paths));
    lemma_list_sum_total(sources, source_requests(m.sources.sources));
    paths.unique_seq_to_set();
    sources.unique_seq_to_set();
}

/// Whether nothing has been observed.
pub open spec fn is_fresh(m: ConcentrationModel) -> bool {
    &&& m.tally.requests == 0
    &&& m.paths == PathBookModel::none()
    &&& m.sources == SourceBookModel::none()
}

proof fn lemma_accounts(m: ConcentrationModel, list: Seq<Observation>)
    requires
        is_fresh(m),
    ensures
        ({
            let after = m.observed_all(list);
            &&& after.tally.requests == list.len()
            &&& after.paths.paths.dom().finite()
            &&& after.sources.sources.dom().finite()
            &&& after.paths.accounts_for(list.len())
            &&& after.sources.accounts_for(list.len())
        }),
    decreases list.len(),
{
    if list.len() == 0 {
        assert(path_requests(m.paths.paths) =~= Map::<Seq<char>, nat>::empty());
        assert(source_requests(m.sources.sources) =~= Map::<Seq<char>, nat>::empty());
        lemma_sum_empty::<Seq<char>>();
    } else {
        let before = m.observed_all(list.drop_last());
        let after = m.observed_all(list);
        let o = list.last();
        lemma_accounts(m, list.drop_last());
        let (p, q) = (before.paths.paths, after.paths.paths);
        let (s, t) = (before.sources.sources, after.sources.sources);
        assert(path_requests(p).dom() =~= p.dom());
        assert(source_requests(s).dom() =~= s.dom());
        if let Some(path) = o.path {
            if before.paths.admits(path, before.limits.max_paths as nat) {
                assert(path_requests(q) =~= path_requests(p).insert(path, q[path].tally.requests));
                lemma_sum_insert(path_requests(p), path, q[path].tally.requests);
            }
        }
        if let Some(source) = o.source {
            if before.sources.admits(source, before.limits.max_source_ips as nat) {
                assert(source_requests(t) =~= source_requests(s).insert(
                    source,
                    t[source].tally.requests,
                ));
                lemma_sum_insert(source_requests(s), source, t[source].tally.requests);
            }
        }
    }
}

/// Whatever was observed, the total of a report is the number of observations. Each of them is in
/// the count of a reported path, was counted as beyond the bound on paths, or had no path, and
/// the same holds of sources. No more paths and sources are reported than the limits allow.
pub proof fn every_request_is_reported(
    m: ConcentrationModel,
    list: Seq<Observation>,
    r: PrivateRequestConcentrationReport,
    with_keys: bool,
)
    requires
        is_fresh(m),
        is_private_report(r, m.observed_all(list), with_keys),
    ensures
        r.summary.total_requests == list.len(),
        adds_up(r),
        r.paths@.len() <= m.limits.max_paths,
        r.source_ips@.len() <= m.limits.max_source_ips,
{
    lemma_accounts(m, list);
    reports_add_up(r, m.observed_all(list), with_keys);
    lemma_within_limits(m, list);
}

proof fn lemma_within_limits(m: ConcentrationModel, list: Seq<Observation>)
    requires
        is_fresh(m),
    ensures
        ({
            let after = m.observed_all(list);
            &&& after.limits == m.limits
            &&& after.paths.paths.dom().finite()
            &&& after.sources.sources.dom().finite()
            &&& after.paths.paths.dom().len() <= m.limits.max_paths
            &&& after.sources.sources.dom().len() <= m.limits.max_source_ips
        }),
    decreases list.len(),
{
    if list.len() > 0 {
        lemma_within_limits(m, list.drop_last());
    }
}

} // verus!
