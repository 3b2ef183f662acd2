//! What the coverage of known exploited vulnerabilities says of the catalog and the templates.

use crate::finding::Detectability;
use crate::kev::{
    any_convertible, any_http, any_observable, any_validated, are_metrics, best, counts, how_many,
    is_result, named, normalized, places_of, relevance, KevCoverageMetrics, KevEntry,
    KevNucleiState, KevNucleiTemplate, KevResult, Measure, NucleiTemplateInput, WebRelevance,
};
use crate::text::{contains_text, lower, upper};
use crate::text_laws::{is_all_space, only_space_is_trimmed};
use vstd::prelude::*;

verus! {

/// Capital letters, small letters and white space around it make no difference to a CVE.
pub proof fn cves_are_compared_without_case(before: Seq<char>, cve: Seq<char>, after: Seq<char>)
    requires
        is_all_space(before),
        is_all_space(after),
        cve.len() > 0 ==> !crate::text::is_space(cve[0]) && !crate::text::is_space(cve.last()),
    ensures
        normalized(before + cve + after) == upper(cve),
        normalized(cve) == upper(cve),
        normalized(lower(cve)) == normalized(cve),
        normalized(normalized(cve)) == normalized(cve),
{
    let none = Seq::<char>::empty();
    only_space_is_trimmed(before, cve, after);
    only_space_is_trimmed(none, cve, none);
    only_space_is_trimmed(none, lower(cve), none);
    only_space_is_trimmed(none, upper(cve), none);
    assert(none + cve + none =~= cve);
    assert(none + lower(cve) + none =~= lower(cve));
    assert(none + upper(cve) + none =~= upper(cve));
    assert(upper(lower(cve)) =~= upper(cve));
    assert(upper(upper(cve)) =~= upper(cve));
    if cve.len() > 0 {
        assert(lower(cve).last() == crate::text::lower_char(cve.last()));
        assert(upper(cve).last() == crate::text::upper_char(cve.last()));
    }
}

proof fn lemma_https_is_http(d: Seq<char>)
    ensures
        contains_text(d, "https"@) ==> contains_text(d, "http"@),
{
    if contains_text(d, "https"@) {
        reveal_strlit("http");
        reveal_strlit("https");
        let at = choose|at: int| crate::text::occurs_at(d, "https"@, at);
        assert(d.subrange(at, at + 4) =~= "http"@) by {
            assert(d.subrange(at, at + 4) =~= d.subrange(at, at + 5).subrange(0, 4));
            assert("https"@.subrange(0, 4) =~= "http"@);
        }
        assert(crate::text::occurs_at(d, "http"@, at));
    }
}

/// A vulnerability is relevant to the web where a template for it speaks HTTP, or its description
/// names HTTP or a web request, interface, application or server, in whatever case. It is not
/// where it has templates but none of that, and otherwise nothing is known.
pub proof fn relevance_needs_evidence(kev: KevEntry, templates: Seq<KevNucleiTemplate>)
    ensures
        ({
            let http = exists|i: int|
                0 <= i < templates.len() && (#[trigger] templates[i]).protocol@ == "http"@;
            let d = lower(kev.short_description@);
            let named = contains_text(d, "http"@) || contains_text(d, "web request"@)
                || contains_text(d, "web interface"@) || contains_text(d, "web application"@)
                || contains_text(d, "web server"@);
            &&& relevance(kev, templates).0 == WebRelevance::WebRelevant <==> http || named
            &&& relevance(kev, templates).0 == WebRelevance::NotWebRelevant <==> !http && !named
                && templates.len() > 0
            &&& relevance(kev, templates).0 == WebRelevance::Unknown <==> !http && !named
                && templates.len() == 0
        }),
{
    lemma_https_is_http(lower(kev.short_description@));
    assert(any_http(templates) == exists|i: int|
        0 <= i < templates.len() && (#[trigger] templates[i]).protocol@ == "http"@) by {
        lemma_any_http(templates);
    }
}

proof fn lemma_any_http(templates: Seq<KevNucleiTemplate>)
    ensures
        any_http(templates) == exists|i: int|
            0 <= i < templates.len() && (#[trigger] templates[i]).protocol@ == "http"@,
{
    if exists|i: int| 0 <= i < templates.len() && (#[trigger] templates[i]).protocol@ == "http"@ {
        let i = choose|i: int|
            0 <= i < templates.len() && (#[trigger] templates[i]).protocol@ == "http"@;
        assert(crate::kev::is_http(templates[i]));
    }
}

/// The best state of a vulnerability is the furthest that its templates come, where one of them
/// speaks HTTP: validated, else converted, else observable, else none of these.
pub proof fn the_best_state_is_the_furthest(templates: Seq<KevNucleiTemplate>)
    ensures
        ({
            let http = exists|i: int|
                0 <= i < templates.len() && (#[trigger] templates[i]).protocol@ == "http"@;
            let validated = exists|i: int|
                0 <= i < templates.len() && (#[trigger] templates[i]).validation_status@
                    == "passed"@;
            let converted = exists|i: int|
                0 <= i < templates.len() && (#[trigger] templates[i]).conversion_status
                    is Supported;
            let seen = exists|i: int|
                0 <= i < templates.len() && ((#[trigger] templates[i]).detectability
                    == Detectability::High || templates[i].detectability == Detectability::Medium);
            &&& best(templates) == KevNucleiState::NoNucleiTemplate <==> templates.len() == 0
            &&& best(templates) == KevNucleiState::NonHttpNucleiTemplate <==> templates.len() > 0
                && !http
            &&& best(templates) == KevNucleiState::HttpTemplateValidated <==> http && validated
            &&& best(templates) == KevNucleiState::HttpTemplateConverted <==> http && !validated
                && converted
            &&& best(templates) == KevNucleiState::HttpTemplateObservableUnsupported <==> http
                && !validated && !converted && seen
            &&& best(templates) == KevNucleiState::HttpTemplateNotObservable <==> http
                && !validated && !converted && !seen
            &&& any_http(templates) == http
            &&& any_validated(templates) == validated
            &&& any_convertible(templates) == converted
            &&& any_observable(templates) == seen
        }),
{
    if exists|i: int| 0 <= i < templates.len() && (#[trigger] templates[i]).protocol@ == "http"@ {
        let i = choose|i: int|
            0 <= i < templates.len() && (#[trigger] templates[i]).protocol@ == "http"@;
        assert(crate::kev::is_http(templates[i]));
    }
    if exists|i: int|
        0 <= i < templates.len() && (#[trigger] templates[i]).validation_status@ == "passed"@ {
        let i = choose|i: int|
            0 <= i < templates.len() && (#[trigger] templates[i]).validation_status@ == "passed"@;
        assert(crate::kev::is_validated(templates[i]));
    }
    if exists|i: int|
        0 <= i < templates.len() && (#[trigger] templates[i]).conversion_status is Supported {
        let i = choose|i: int|
            0 <= i < templates.len() && (#[trigger] templates[i]).conversion_status is Supported;
        assert(crate::kev::is_convertible(templates[i]));
    }
    if exists|i: int|
        0 <= i < templates.len() && ((#[trigger] templates[i]).detectability == Detectability::High
            || templates[i].detectability == Detectability::Medium) {
        let i = choose|i: int|
            0 <= i < templates.len() && ((#[trigger] templates[i]).detectability
                == Detectability::High || templates[i].detectability == Detectability::Medium);
        assert(crate::kev::is_observable(templates[i]));
    }
}

proof fn lemma_named(cves: Seq<String>, place: usize, cve: Seq<char>)
    ensures
        forall|k: int|
            0 <= k < named(cves, place, cve).len() ==> #[trigger] named(cves, place, cve)[k]
                == place,
        named(cves, place, cve).len() > 0 <==> exists|k: int|
            0 <= k < cves.len() && normalized((#[trigger] cves[k])@) == cve,
    decreases cves.len(),
{
    if cves.len() > 0 {
        let before = cves.drop_last();
        lemma_named(before, place, cve);
        assert(cves[cves.len() - 1] == cves.last());
        if exists|k: int| 0 <= k < before.len() && normalized((#[trigger] before[k])@) == cve {
            let k = choose|k: int|
                0 <= k < before.len() && normalized((#[trigger] before[k])@) == cve;
            assert(cves[k] == before[k]);
        }
        if exists|k: int| 0 <= k < cves.len() && normalized((#[trigger] cves[k])@) == cve {
            let k = choose|k: int| 0 <= k < cves.len() && normalized((#[trigger] cves[k])@) == cve;
            if k < before.len() {
                assert(before[k] == cves[k]);
            }
        }
        let (a, b) = (named(before, place, cve), named(cves, place, cve));
        assert forall|k: int| 0 <= k < b.len() implies #[trigger] b[k] == place by {
            if k < a.len() {
                assert(b[k] == a[k]);
            }
        }
    }
}

/// Whether a template names a CVE, without regard to case and white space around it.
pub open spec fn names(t: NucleiTemplateInput, cve: Seq<char>) -> bool {
    exists|k: int| 0 <= k < t.cves@.len() && normalized((#[trigger] t.cves@[k])@) == cve
}

/// The templates for a CVE are exactly those that name it.
pub proof fn templates_are_found_by_their_cves(
    all: Seq<NucleiTemplateInput>,
    cve: Seq<char>,
    place: usize,
)
    requires
        all.len() <= usize::MAX,
    ensures
        places_of(all, cve).contains(place) == (place < all.len() && names(
            all[place as int],
            cve,
        )),
    decreases all.len(),
{
    if all.len() > 0 {
        let before = all.drop_last();
        let n = (all.len() - 1) as usize;
        templates_are_found_by_their_cves(before, cve, place);
        lemma_named(all.last().cves@, n, cve);
        let (a, b) = (places_of(before, cve), named(all.last().cves@, n, cve));
        let s = a + b;
        assert(all[n as int] == all.last());
        if a.contains(place) {
            let i = a.index_of(place);
            assert(s[i] == place);
            assert(before[place as int] == all[place as int]);
        }
        if b.contains(place) {
            let i = b.index_of(place);
            assert(s[a.len() + i] == place);
        }
        if s.contains(place) {
            let i = s.index_of(place);
            if i < a.len() {
                assert(a[i] == place);
                assert(a.contains(place));
            } else {
                assert(b[i - a.len()] == place);
            }
        }
        if place < all.len() && names(all[place as int], cve) {
            if place < before.len() {
                assert(before[place as int] == all[place as int]);
            } else {
                assert(b[0] == place);
                assert(b.contains(place));
            }
        }
    }
}

proof fn lemma_how_many(measure: Measure, results: Seq<KevResult>)
    ensures
        how_many(measure, results) == results.filter(|r: KevResult| counts(measure, r)).len(),
    decreases results.len(),
{
    reveal(Seq::filter);
    if results.len() > 0 {
        lemma_how_many(measure, results.drop_last());
    }
}

/// Each number of a coverage is that of the results it speaks of: all of them, those of each
/// relevance, and of the relevant ones those with a template, with one that speaks HTTP, that are
/// observable, convertible or validated, and those without a template.
pub proof fn metrics_count_the_results(m: KevCoverageMetrics, results: Seq<KevResult>)
    requires
        are_metrics(m, results),
    ensures
        m.total_kevs == results.len(),
        m.web_relevant == results.filter(|r: KevResult| counts(Measure::WebRelevant, r)).len(),
        m.not_web_relevant == results.filter(
            |r: KevResult| counts(Measure::NotWebRelevant, r),
        ).len(),
        m.unknown_web_relevance == results.filter(|r: KevResult| counts(Measure::Unknown, r)).len(),
        m.web_relevant_with_nuclei_template == results.filter(
            |r: KevResult| counts(Measure::WithTemplate, r),
        ).len(),
        m.web_relevant_with_http_nuclei_template == results.filter(
            |r: KevResult| counts(Measure::WithHttpTemplate, r),
        ).len(),
        m.web_relevant_observable == results.filter(
            |r: KevResult| counts(Measure::Observable, r),
        ).len(),
        m.web_relevant_convertible == results.filter(
            |r: KevResult| counts(Measure::Convertible, r),
        ).len(),
        m.web_relevant_validated == results.filter(
            |r: KevResult| counts(Measure::Validated, r),
        ).len(),
        m.web_relevant_no_nuclei_template == results.filter(
            |r: KevResult| counts(Measure::WithoutTemplate, r),
        ).len(),
{
    lemma_how_many(Measure::WebRelevant, results);
    lemma_how_many(Measure::NotWebRelevant, results);
    lemma_how_many(Measure::Unknown, results);
    lemma_how_many(Measure::WithTemplate, results);
    lemma_how_many(Measure::WithHttpTemplate, results);
    lemma_how_many(Measure::Observable, results);
    lemma_how_many(Measure::Convertible, results);
    lemma_how_many(Measure::Validated, results);
    lemma_how_many(Measure::WithoutTemplate, results);
}

/// What each measure counts, on the fields of a result.
pub proof fn measures_are_on_their_fields(r: KevResult)
    ensures
        ({
            let web = r.web_relevance == WebRelevance::WebRelevant;
            &&& counts(Measure::WebRelevant, r) == web
            &&& counts(Measure::NotWebRelevant, r) == (r.web_relevance
                == WebRelevance::NotWebRelevant)
            &&& counts(Measure::Unknown, r) == (r.web_relevance == WebRelevance::Unknown)
            &&& counts(Measure::WithTemplate, r) == (web && r.nuclei_templates@.len() > 0)
            &&& counts(Measure::WithoutTemplate, r) == (web && r.nuclei_templates@.len() == 0)
            &&& counts(Measure::Observable, r) == (web && r.observable)
            &&& counts(Measure::Convertible, r) == (web && r.convertible)
            &&& counts(Measure::Validated, r) == (web && r.validated)
        }),
{
}

/// A result is of its own entry of the catalog: it has the CVE, and what is said of it is said of
/// its templates.
pub proof fn results_are_of_their_entries(
    r: KevResult,
    kev: KevEntry,
    templates: Seq<KevNucleiTemplate>,
)
    requires
        is_result(r, kev, templates),
    ensures
        r.cve@ == normalized(kev.cve_id@),
        r.kev == kev,
        r.nuclei_templates@ == templates,
        r.web_relevance == relevance(kev, templates).0,
        r.best_nuclei_state == best(templates),
        r.observable == any_observable(templates),
        r.convertible == any_convertible(templates),
        r.validated == any_validated(templates),
{
}

} // verus!
