//! What an evaluation of a candidate says of the corpora it was evaluated on.

use crate::candidate::DefensiveCandidate;
use crate::concentration::{observation, ConcentrationModel};
use crate::condition::{absent, holds, DefensiveCondition};
use crate::evaluation::{
    beyond, by_path, first_of, is_row, place, shared_count, is_shared, CorpusEvaluation,
    EvaluationCorpus, ProgressModel, ProvenanceModel,
};
use crate::event::WebEvent;
use crate::network::parsed_address;
use crate::text::text_before;
use vstd::prelude::*;

verus! {

/// What has been counted after a list of events, where addresses are compared or not.
pub open spec fn evaluated(
    start: ProgressModel,
    c: DefensiveCondition,
    events: Seq<WebEvent>,
    uses_addresses: bool,
) -> ProgressModel
    decreases events.len(),
{
    if events.len() == 0 {
        start
    } else {
        let e = events.last();
        evaluated(start, c, events.drop_last(), uses_addresses).observed(
            c,
            e,
            uses_addresses,
            e.source_ip is Some && parsed_address(e.source_ip.unwrap()@) is Some,
        )
    }
}

/// Whether an event counts as a match: the condition holds of it, and its address can be read
/// where addresses are compared.
pub open spec fn is_match(c: DefensiveCondition, e: WebEvent, uses_addresses: bool) -> bool {
    holds(c, e) && (uses_addresses ==> e.source_ip is Some && parsed_address(
        e.source_ip.unwrap()@,
    ) is Some)
}

/// The matches of a list of events, measured as requests.
pub open spec fn measured(
    start: ConcentrationModel,
    c: DefensiveCondition,
    events: Seq<WebEvent>,
    uses_addresses: bool,
) -> ConcentrationModel
    decreases events.len(),
{
    if events.len() == 0 {
        start
    } else {
        let before = measured(start, c, events.drop_last(), uses_addresses);
        if is_match(c, events.last(), uses_addresses) {
            before.observed(observation(events.last()))
        } else {
            before
        }
    }
}

/// An evaluation counts every event, each that lacks an attribute of the condition, and each that
/// is a match; where addresses are compared, one without an address is unavailable and one whose
/// address cannot be read is invalid, and neither is a match. The matches, and only they, are
/// measured.
pub proof fn evaluations_count_the_events(
    start: ProgressModel,
    c: DefensiveCondition,
    events: Seq<WebEvent>,
    uses_addresses: bool,
)
    requires
        start.parseable == 0,
        start.matching == 0,
        start.absent == 0,
        start.unavailable == 0,
        start.invalid == 0,
    ensures
        ({
            let r = evaluated(start, c, events, uses_addresses);
            &&& r.parseable == events.len()
            &&& r.parse_errors == start.parse_errors
            &&& r.matching == events.filter(|e: WebEvent| is_match(c, e, uses_addresses)).len()
            &&& r.absent == events.filter(|e: WebEvent| absent(c, e)).len()
            &&& r.unavailable == events.filter(
                |e: WebEvent| uses_addresses && e.source_ip is None,
            ).len()
            &&& r.invalid == events.filter(
                |e: WebEvent|
                    uses_addresses && e.source_ip is Some && parsed_address(
                        e.source_ip.unwrap()@,
                    ) is None,
            ).len()
            &&& r.matched == measured(start.matched, c, events, uses_addresses)
        }),
    decreases events.len(),
{
    reveal(Seq::filter);
    if events.len() > 0 {
        evaluations_count_the_events(start, c, events.drop_last(), uses_addresses);
    }
}

/// The row of a corpus gives what was counted, and the share of the matches in all events that
/// could be read. There is no share of none.
pub proof fn rows_give_what_was_counted(
    row: CorpusEvaluation,
    progress: ProgressModel,
    candidate: DefensiveCandidate,
    plan: EvaluationCorpus,
    files: Seq<ProvenanceModel>,
    maximum_details: usize,
)
    requires
        is_row(row, progress, candidate, plan, files, maximum_details),
    ensures
        row.parseable_records == progress.parseable,
        row.parse_errors == progress.parse_errors,
        row.matching_records == progress.matching,
        row.records_with_absent_condition_fields == progress.absent,
        row.source_address_unavailable == progress.unavailable,
        row.source_address_invalid == progress.invalid,
        row.match_share is Some == (row.parseable_records > 0),
        row.match_share matches Some(share) ==> share.numerator == row.matching_records
            && share.denominator == row.parseable_records,
        row.role == plan.role,
        row.telemetry_profile == plan.telemetry_profile,
{
}

/// Of a list that is too long the first entries are shown, as many as the limit says, and the
/// others are counted; of one that is not, all are.
pub proof fn the_first_are_shown<T>(list: Seq<T>, limit: nat)
    ensures
        first_of(list, limit).len() + beyond(list.len(), limit) == list.len(),
        first_of(list, limit).len() <= limit,
        beyond(list.len(), limit) > 0 ==> first_of(list, limit).len() == limit,
        forall|i: int|
            0 <= i < first_of(list, limit).len() ==> #[trigger] first_of(list, limit)[i] == list[i],
{
}

/// Whether no file comes before an earlier one.
pub open spec fn in_path_order(files: Seq<ProvenanceModel>) -> bool {
    forall|i: int, j: int|
        0 <= i < j < files.len() ==> !text_before(
            (#[trigger] files[j]).path,
            (#[trigger] files[i]).path,
        )
}

proof fn lemma_place(list: Seq<ProvenanceModel>, file: ProvenanceModel)
    requires
        in_path_order(list),
    ensures
        0 <= place(list, file) <= list.len(),
        forall|i: int|
            0 <= i < place(list, file) ==> !text_before(file.path, (#[trigger] list[i]).path),
        forall|i: int|
            place(list, file) <= i < list.len() ==> text_before(
                file.path,
                (#[trigger] list[i]).path,
            ),
    decreases list.len(),
{
    if list.len() > 0 {
        let rest = list.drop_last();
        let last = list.last();
        assert(list[list.len() - 1] == last);
        assert forall|i: int, j: int| 0 <= i < j < rest.len() implies !text_before(
            (#[trigger] rest[j]).path,
            (#[trigger] rest[i]).path,
        ) by {
            assert(rest[i] == list[i] && rest[j] == list[j]);
        }
        lemma_place(rest, file);
        if text_before(file.path, last.path) {
            assert forall|i: int| 0 <= i < place(list, file) implies !text_before(
                file.path,
                (#[trigger] list[i]).path,
            ) by {
                assert(rest[i] == list[i]);
            }
            assert forall|i: int| place(list, file) <= i < list.len() implies text_before(
                file.path,
                (#[trigger] list[i]).path,
            ) by {
                if i < rest.len() {
                    assert(rest[i] == list[i]);
                }
            }
        } else {
            assert forall|i: int| 0 <= i < list.len() implies !text_before(
                file.path,
                (#[trigger] list[i]).path,
            ) by {
                if i < rest.len() && text_before(file.path, list[i].path) {
                    assert(!text_before(last.path, list[i].path));
                    crate::text::text_order_is_total(last.path, list[i].path);
                    crate::text::text_order_is_total(file.path, last.path);
                    if text_before(list[i].path, last.path) {
                        crate::text::text_order_is_transitive(
                            file.path,
                            list[i].path,
                            last.path,
                        );
                    }
                }
            }
        }
    }
}

/// The files of a corpus stand in the order of their paths, and they are the given ones.
pub proof fn files_are_ordered_by_path(files: Seq<ProvenanceModel>)
    ensures
        in_path_order(by_path(files)),
        by_path(files).to_multiset() == files.to_multiset(),
        by_path(files).len() == files.len(),
    decreases files.len(),
{
    broadcast use vstd::seq_lib::group_to_multiset_ensures;

    if files.len() > 0 {
        let before = by_path(files.drop_last());
        let file = files.last();
        files_are_ordered_by_path(files.drop_last());
        lemma_place(before, file);
        let at = place(before, file);
        let list = before.insert(at, file);
        assert(files =~= files.drop_last().push(file));
        assert forall|i: int, j: int| 0 <= i < j < list.len() implies !text_before(
            (#[trigger] list[j]).path,
            (#[trigger] list[i]).path,
        ) by {
            if i < at && j == at {
                assert(!text_before(file.path, before[i].path));
            } else if i == at {
                assert(text_before(file.path, before[j - 1].path));
                crate::text::text_order_is_total(file.path, before[j - 1].path);
            } else if i < at && j > at {
                assert(!text_before(before[j - 1].path, before[i].path));
            } else if i > at {
                assert(!text_before(before[j - 1].path, before[i - 1].path));
            } else {
                assert(!text_before(before[j].path, before[i].path));
            }
        }
    } else {
        assert(by_path(files) =~= files);
    }
}

/// Files that are shared are counted: no more than there are, none where no other corpus has the
/// bytes of one, and all where another has those of each.
pub proof fn shared_files_are_counted(lists: Seq<Seq<ProvenanceModel>>, at: int, n: nat)
    requires
        0 <= at < lists.len(),
        n <= lists[at].len(),
    ensures
        shared_count(lists, at, n) <= n,
        shared_count(lists, at, n) == 0 <==> forall|k: int|
            0 <= k < n ==> !is_shared(lists, at, (#[trigger] lists[at][k]).sha256),
        shared_count(lists, at, n) == n <==> forall|k: int|
            0 <= k < n ==> is_shared(lists, at, (#[trigger] lists[at][k]).sha256),
    decreases n,
{
    if n > 0 {
        shared_files_are_counted(lists, at, (n - 1) as nat);
        let last = lists[at][n - 1];
        if shared_count(lists, at, n) == 0 {
            assert forall|k: int| 0 <= k < n implies !is_shared(
                lists,
                at,
                (#[trigger] lists[at][k]).sha256,
            ) by {
                if k < n - 1 {
                    assert(!is_shared(lists, at, lists[at][k].sha256));
                }
            }
        }
        if shared_count(lists, at, n) == n {
            assert forall|k: int| 0 <= k < n implies is_shared(
                lists,
                at,
                (#[trigger] lists[at][k]).sha256,
            ) by {
                if k < n - 1 {
                    assert(is_shared(lists, at, lists[at][k].sha256));
                }
            }
        }
        assert(lists[at][n - 1] == last);
    }
}

} // verus!
