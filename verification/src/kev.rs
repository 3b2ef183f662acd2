//! Offline coverage of the CISA catalog of known exploited vulnerabilities by Nuclei templates.
//!
//! Only local snapshots are used. Nothing is downloaded and no template is run.

use crate::finding::Detectability;
use crate::ordered::{TextMap, TextSet};
use crate::references::{tallies, tally};
use crate::text::{
    ascii_lowercase, ascii_uppercase, compare_text, contains, contains_text, decimal, decimal_text,
    lower, opt_text, same_text, text_before, text_order_is_total, text_order_is_transitive, texts,
    trim, trim_text, upper, TextOrder,
};
use vstd::prelude::*;
use vstd::string::*;

verus! {

broadcast use vstd::string::group_string_axioms;

pub const METHODOLOGY: &'static str =
    "WEB_RELEVANT requires explicit HTTP/HTTPS/web-interface evidence in CISA's short description or at least one Nuclei HTTP template. NOT_WEB_RELEVANT requires one or more Nuclei templates and no HTTP template. All other entries are UNKNOWN; absence of Nuclei evidence is never treated as not detectable.";

#[derive(Clone, Copy, Debug, PartialEq, Eq, Structural)]
pub enum WebRelevance {
    WebRelevant,
    NotWebRelevant,
    Unknown,
}

#[derive(Clone, Copy, Debug, PartialEq, Eq, Structural)]
pub enum KevNucleiState {
    NoNucleiTemplate,
    NonHttpNucleiTemplate,
    HttpTemplateNotObservable,
    HttpTemplateObservableUnsupported,
    HttpTemplateConverted,
    HttpTemplateValidated,
}

/// Whether a template could be converted.
#[derive(Clone, Debug)]
pub enum ConversionStatus {
    Supported,
    /// Any other status, as it is written.
    Other(String),
}

#[derive(Clone, Debug)]
pub struct KevEntry {
    pub cve_id: String,
    pub vendor_project: String,
    pub product: String,
    pub vulnerability_name: String,
    pub date_added: String,
    pub known_ransomware_campaign_use: String,
    pub required_action: String,
    pub due_date: String,
    pub short_description: String,
}

#[derive(Clone, Debug)]
pub struct KevCatalog {
    pub catalog_version: Option<String>,
    pub date_released: Option<String>,
    pub vulnerabilities: Vec<KevEntry>,
}

#[derive(Clone, Debug)]
pub struct KevNucleiTemplate {
    pub template_id: String,
    pub template_path: String,
    pub protocol: String,
    pub detectability: Detectability,
    pub conversion_status: ConversionStatus,
    pub validation_status: String,
}

/// A template and the CVEs that it is for.
#[derive(Clone, Debug)]
pub struct NucleiTemplateInput {
    pub cves: Vec<String>,
    pub template: KevNucleiTemplate,
}

#[derive(Clone, Debug)]
pub struct NucleiCoverageInput {
    pub nuclei_revision: String,
    pub templates: Vec<NucleiTemplateInput>,
}

#[derive(Clone, Debug)]
pub struct KevResult {
    pub cve: String,
    pub kev: KevEntry,
    pub web_relevance: WebRelevance,
    pub web_relevance_reasons: Vec<String>,
    pub nuclei_templates: Vec<KevNucleiTemplate>,
    pub best_nuclei_state: KevNucleiState,
    pub observable: bool,
    pub convertible: bool,
    pub validated: bool,
}

#[derive(Clone, Copy, Debug, PartialEq, Eq, Structural)]
pub struct KevCoverageMetrics {
    pub total_kevs: usize,
    pub web_relevant: usize,
    pub not_web_relevant: usize,
    pub unknown_web_relevance: usize,
    pub web_relevant_with_nuclei_template: usize,
    pub web_relevant_with_http_nuclei_template: usize,
    pub web_relevant_observable: usize,
    pub web_relevant_convertible: usize,
    pub web_relevant_validated: usize,
    pub web_relevant_no_nuclei_template: usize,
}

#[derive(Debug)]
pub struct KevCoverageReport {
    pub catalog_version: Option<String>,
    pub catalog_date_released: Option<String>,
    pub nuclei_revision: String,
    pub web_relevance_methodology: String,
    pub metrics: KevCoverageMetrics,
    pub state_counts: TextMap<usize>,
    pub entries: Vec<KevResult>,
}

/// A CVE as it is compared.
pub open spec fn normalized(cve: Seq<char>) -> Seq<char> {
    upper(trim_text(cve))
}

pub fn normalize_cve(value: &str) -> (r: String)
    ensures
        r@ == normalized(value@),
{
    ascii_uppercase(trim(value).as_str())
}

pub open spec fn is_http(t: KevNucleiTemplate) -> bool {
    t.protocol@ == "http"@
}

pub open spec fn is_observable(t: KevNucleiTemplate) -> bool {
    t.detectability == Detectability::High || t.detectability == Detectability::Medium
}

pub open spec fn is_convertible(t: KevNucleiTemplate) -> bool {
    t.conversion_status is Supported
}

pub open spec fn is_validated(t: KevNucleiTemplate) -> bool {
    t.validation_status@ == "passed"@
}

pub open spec fn any_http(list: Seq<KevNucleiTemplate>) -> bool {
    exists|i: int| 0 <= i < list.len() && is_http(#[trigger] list[i])
}

pub open spec fn any_observable(list: Seq<KevNucleiTemplate>) -> bool {
    exists|i: int| 0 <= i < list.len() && is_observable(#[trigger] list[i])
}

pub open spec fn any_convertible(list: Seq<KevNucleiTemplate>) -> bool {
    exists|i: int| 0 <= i < list.len() && is_convertible(#[trigger] list[i])
}

pub open spec fn any_validated(list: Seq<KevNucleiTemplate>) -> bool {
    exists|i: int| 0 <= i < list.len() && is_validated(#[trigger] list[i])
}

/// Which of the four hold of some template.
struct Traits {
    http: bool,
    observable: bool,
    convertible: bool,
    validated: bool,
}

fn traits_of(list: &Vec<KevNucleiTemplate>) -> (r: Traits)
    ensures
        r.http == any_http(list@),
        r.observable == any_observable(list@),
        r.convertible == any_convertible(list@),
        r.validated == any_validated(list@),
{
    let mut r = Traits { http: false, observable: false, convertible: false, validated: false };
    let mut i: usize = 0;
    while i < list.len()
        invariant
            i <= list@.len(),
            r.http == exists|j: int| 0 <= j < i && is_http(#[trigger] list@[j]),
            r.observable == exists|j: int| 0 <= j < i && is_observable(#[trigger] list@[j]),
            r.convertible == exists|j: int| 0 <= j < i && is_convertible(#[trigger] list@[j]),
            r.validated == exists|j: int| 0 <= j < i && is_validated(#[trigger] list@[j]),
        decreases list.len() - i,
    {
        let t = &list[i];
        if same_text(t.protocol.as_str(), "http") {
            r.http = true;
        }
        match t.detectability {
            Detectability::High => {
                r.observable = true;
            },
            Detectability::Medium => {
                r.observable = true;
            },
            _ => {},
        }
        match &t.conversion_status {
            ConversionStatus::Supported => {
                r.convertible = true;
            },
            _ => {},
        }
        if same_text(t.validation_status.as_str(), "passed") {
            r.validated = true;
        }
        assert(list@[i as int] == *t);
        i = i + 1;
    }
    r
}

/// Whether a description speaks of web transport.
pub open spec fn speaks_of_web(description: Seq<char>) -> bool {
    let d = lower(description);
    contains_text(d, "http"@) || contains_text(d, "https"@) || contains_text(d, "web request"@)
        || contains_text(d, "web interface"@) || contains_text(d, "web application"@)
        || contains_text(d, "web server"@)
}

/// Whether a vulnerability can show in web traffic, and the reason. A missing template is never
/// taken as a sign that it cannot.
pub open spec fn relevance(kev: KevEntry, templates: Seq<KevNucleiTemplate>) -> (
    WebRelevance,
    Seq<char>,
) {
    if any_http(templates) {
        (WebRelevance::WebRelevant, "nuclei_http_template"@)
    } else if speaks_of_web(kev.short_description@) {
        (WebRelevance::WebRelevant, "cisa_description_explicit_web_transport"@)
    } else if templates.len() > 0 {
        (WebRelevance::NotWebRelevant, "only_non_http_nuclei_templates"@)
    } else {
        (WebRelevance::Unknown, "insufficient_evidence"@)
    }
}

pub fn web_relevance(kev: &KevEntry, templates: &Vec<KevNucleiTemplate>) -> (r: (
    WebRelevance,
    Vec<String>,
))
    ensures
        r.0 == relevance(*kev, templates@).0,
        texts(r.1@) == seq![relevance(*kev, templates@).1],
{
    let (found, reason) = if traits_of(templates).http {
        (WebRelevance::WebRelevant, "nuclei_http_template")
    } else {
        let d = ascii_lowercase(kev.short_description.as_str());
        let d = d.as_str();
        if contains(d, "http") || contains(d, "https") || contains(d, "web request") || contains(
            d,
            "web interface",
        ) || contains(d, "web application") || contains(d, "web server") {
            (WebRelevance::WebRelevant, "cisa_description_explicit_web_transport")
        } else if templates.len() > 0 {
            (WebRelevance::NotWebRelevant, "only_non_http_nuclei_templates")
        } else {
            (WebRelevance::Unknown, "insufficient_evidence")
        }
    };
    let mut reasons: Vec<String> = Vec::new();
    reasons.push(reason.to_owned());
    assert(texts(reasons@) =~= seq![reason@]);
    (found, reasons)
}

/// The best that the templates of a vulnerability come to.
pub open spec fn best(templates: Seq<KevNucleiTemplate>) -> KevNucleiState {
    if templates.len() == 0 {
        KevNucleiState::NoNucleiTemplate
    } else if !any_http(templates) {
        KevNucleiState::NonHttpNucleiTemplate
    } else if any_validated(templates) {
        KevNucleiState::HttpTemplateValidated
    } else if any_convertible(templates) {
        KevNucleiState::HttpTemplateConverted
    } else if any_observable(templates) {
        KevNucleiState::HttpTemplateObservableUnsupported
    } else {
        KevNucleiState::HttpTemplateNotObservable
    }
}

pub fn best_state(templates: &Vec<KevNucleiTemplate>) -> (r: KevNucleiState)
    ensures
        r == best(templates@),
{
    let traits = traits_of(templates);
    if templates.len() == 0 {
        KevNucleiState::NoNucleiTemplate
    } else if !traits.http {
        KevNucleiState::NonHttpNucleiTemplate
    } else if traits.validated {
        KevNucleiState::HttpTemplateValidated
    } else if traits.convertible {
        KevNucleiState::HttpTemplateConverted
    } else if traits.observable {
        KevNucleiState::HttpTemplateObservableUnsupported
    } else {
        KevNucleiState::HttpTemplateNotObservable
    }
}

pub open spec fn state_name(state: KevNucleiState) -> Seq<char> {
    match state {
        KevNucleiState::NoNucleiTemplate => "NO_NUCLEI_TEMPLATE"@,
        KevNucleiState::NonHttpNucleiTemplate => "NON_HTTP_NUCLEI_TEMPLATE"@,
        KevNucleiState::HttpTemplateNotObservable => "HTTP_TEMPLATE_NOT_OBSERVABLE"@,
        KevNucleiState::HttpTemplateObservableUnsupported =>
            "HTTP_TEMPLATE_OBSERVABLE_UNSUPPORTED"@,
        KevNucleiState::HttpTemplateConverted => "HTTP_TEMPLATE_CONVERTED"@,
        KevNucleiState::HttpTemplateValidated => "HTTP_TEMPLATE_VALIDATED"@,
    }
}

pub fn state_label(state: KevNucleiState) -> (r: &'static str)
    ensures
        r@ == state_name(state),
{
    match state {
        KevNucleiState::NoNucleiTemplate => "NO_NUCLEI_TEMPLATE",
        KevNucleiState::NonHttpNucleiTemplate => "NON_HTTP_NUCLEI_TEMPLATE",
        KevNucleiState::HttpTemplateNotObservable => "HTTP_TEMPLATE_NOT_OBSERVABLE",
        KevNucleiState::HttpTemplateObservableUnsupported => "HTTP_TEMPLATE_OBSERVABLE_UNSUPPORTED",
        KevNucleiState::HttpTemplateConverted => "HTTP_TEMPLATE_CONVERTED",
        KevNucleiState::HttpTemplateValidated => "HTTP_TEMPLATE_VALIDATED",
    }
}

/// The place of a template, once for each time that it names a CVE.
pub open spec fn named(cves: Seq<String>, place: usize, cve: Seq<char>) -> Seq<usize>
    decreases cves.len(),
{
    if cves.len() == 0 {
        seq![]
    } else {
        let before = named(cves.drop_last(), place, cve);
        if normalized(cves.last()@) == cve {
            before.push(place)
        } else {
            before
        }
    }
}

/// The places of the templates for a CVE.
pub open spec fn places_of(all: Seq<NucleiTemplateInput>, cve: Seq<char>) -> Seq<usize>
    decreases all.len(),
{
    if all.len() == 0 {
        seq![]
    } else {
        places_of(all.drop_last(), cve) + named(
            all.last().cves@,
            (all.len() - 1) as usize,
            cve,
        )
    }
}

/// The templates at some places.
pub open spec fn templates_at(all: Seq<NucleiTemplateInput>, places: Seq<usize>) -> Seq<
    KevNucleiTemplate,
> {
    places.map_values(|p: usize| all[p as int].template)
}

proof fn lemma_places_exist(all: Seq<NucleiTemplateInput>, cve: Seq<char>)
    requires
        all.len() <= usize::MAX,
    ensures
        forall|i: int|
            0 <= i < places_of(all, cve).len() ==> (#[trigger] places_of(all, cve)[i]) < all.len(),
    decreases all.len(),
{
    if all.len() > 0 {
        let before = places_of(all.drop_last(), cve);
        let more = named(all.last().cves@, (all.len() - 1) as usize, cve);
        lemma_places_exist(all.drop_last(), cve);
        lemma_named(all.last().cves@, (all.len() - 1) as usize, cve);
        assert forall|i: int| 0 <= i < places_of(all, cve).len() implies (#[trigger] places_of(
            all,
            cve,
        )[i]) < all.len() by {
            if i < before.len() {
                assert(before[i] < all.drop_last().len());
            } else {
                assert(more[i - before.len()] == (all.len() - 1) as usize);
            }
        }
    }
}

proof fn lemma_named(cves: Seq<String>, place: usize, cve: Seq<char>)
    ensures
        forall|i: int|
            0 <= i < named(cves, place, cve).len() ==> #[trigger] named(cves, place, cve)[i]
                == place,
    decreases cves.len(),
{
    if cves.len() > 0 {
        let before = named(cves.drop_last(), place, cve);
        lemma_named(cves.drop_last(), place, cve);
        assert forall|i: int| 0 <= i < named(cves, place, cve).len() implies #[trigger] named(
            cves,
            place,
            cve,
        )[i] == place by {
            if i < before.len() {
                assert(before[i] == place);
            }
        }
    }
}

pub open spec fn indexed(index: Map<Seq<char>, Vec<usize>>, cve: Seq<char>) -> Seq<usize> {
    if index.dom().contains(cve) {
        index[cve]@
    } else {
        seq![]
    }
}

fn note_place(index: &mut TextMap<Vec<usize>>, cve: String, place: usize)
    requires
        old(index).wf(),
    ensures
        final(index).wf(),
        forall|k: Seq<char>| #[trigger]
            indexed(final(index)@, k) == if k == cve@ {
                indexed(old(index)@, k).push(place)
            } else {
                indexed(old(index)@, k)
            },
{
    let ghost before = index@;
    let known = index.contains_key(cve.as_str());
    if known {
        if let Some(places) = index.get_mut(cve.as_str()) {
            places.push(place);
        }
    } else {
        let mut places: Vec<usize> = Vec::new();
        places.push(place);
        assert(places@ =~= Seq::<usize>::empty().push(place));
        index.insert(cve, places);
    }
}

/// The places of the templates by CVE.
fn index_templates(all: &Vec<NucleiTemplateInput>) -> (r: TextMap<Vec<usize>>)
    ensures
        r.wf(),
        forall|cve: Seq<char>| #[trigger] indexed(r@, cve) == places_of(all@, cve),
{
    let mut index: TextMap<Vec<usize>> = TextMap::new();
    let mut i: usize = 0;
    while i < all.len()
        invariant
            index.wf(),
            i <= all@.len(),
            forall|cve: Seq<char>| #[trigger]
                indexed(index@, cve) == places_of(all@.take(i as int), cve),
        decreases all.len() - i,
    {
        let cves = &all[i].cves;
        let ghost done = all@.take(i as int);
        let mut j: usize = 0;
        assert forall|cve: Seq<char>| #[trigger] indexed(index@, cve) == places_of(done, cve)
            + named(cves@.take(0), i, cve) by {
            assert(named(cves@.take(0), i, cve) =~= Seq::<usize>::empty());
            assert(places_of(done, cve) + Seq::<usize>::empty() =~= places_of(done, cve));
        }
        while j < cves.len()
            invariant
                index.wf(),
                j <= cves@.len(),
                forall|cve: Seq<char>| #[trigger]
                    indexed(index@, cve) == places_of(done, cve) + named(
                        cves@.take(j as int),
                        i,
                        cve,
                    ),
            decreases cves.len() - j,
        {
            let cve = normalize_cve(cves[j].as_str());
            let ghost key = cve@;
            let ghost before = index@;
            note_place(&mut index, cve, i);
            proof {
                assert(cves@.take(j + 1).drop_last() =~= cves@.take(j as int));
                assert(cves@.take(j + 1).last() == cves@[j as int]);
                assert forall|k: Seq<char>| #[trigger] indexed(index@, k) == places_of(done, k)
                    + named(cves@.take(j + 1), i, k) by {
                    let a = places_of(done, k);
                    let b = named(cves@.take(j as int), i, k);
                    assert(indexed(before, k) == a + b);
                    if k == key {
                        assert((a + b).push(i) =~= a + b.push(i));
                    }
                }
            }
            j = j + 1;
        }
        proof {
            assert(cves@.take(j as int) =~= cves@);
            assert(all@.take(i + 1).drop_last() =~= done);
            assert(all@.take(i + 1).last() == all@[i as int]);
            assert forall|cve: Seq<char>| #[trigger] indexed(index@, cve) == places_of(
                all@.take(i + 1),
                cve,
            ) by {
                assert(places_of(all@.take(i + 1), cve) == places_of(done, cve) + named(
                    cves@,
                    i,
                    cve,
                ));
            }
        }
        i = i + 1;
    }
    assert(all@.take(i as int) =~= all@);
    index
}

fn copy_template(t: &KevNucleiTemplate) -> (r: KevNucleiTemplate)
    ensures
        r == *t,
{
    KevNucleiTemplate {
        template_id: t.template_id.clone(),
        template_path: t.template_path.clone(),
        protocol: t.protocol.clone(),
        detectability: t.detectability,
        conversion_status: match &t.conversion_status {
            ConversionStatus::Supported => ConversionStatus::Supported,
            ConversionStatus::Other(text) => ConversionStatus::Other(text.clone()),
        },
        validation_status: t.validation_status.clone(),
    }
}

fn copy_entry(e: &KevEntry) -> (r: KevEntry)
    ensures
        r == *e,
{
    KevEntry {
        cve_id: e.cve_id.clone(),
        vendor_project: e.vendor_project.clone(),
        product: e.product.clone(),
        vulnerability_name: e.vulnerability_name.clone(),
        date_added: e.date_added.clone(),
        known_ransomware_campaign_use: e.known_ransomware_campaign_use.clone(),
        required_action: e.required_action.clone(),
        due_date: e.due_date.clone(),
        short_description: e.short_description.clone(),
    }
}

fn copy_templates(all: &Vec<NucleiTemplateInput>, places: &Vec<usize>) -> (r: Vec<
    KevNucleiTemplate,
>)
    requires
        forall|i: int| 0 <= i < places@.len() ==> (#[trigger] places@[i]) < all@.len(),
    ensures
        r@ == templates_at(all@, places@),
{
    let mut r: Vec<KevNucleiTemplate> = Vec::new();
    let mut i: usize = 0;
    while i < places.len()
        invariant
            forall|i: int| 0 <= i < places@.len() ==> (#[trigger] places@[i]) < all@.len(),
            i <= places@.len(),
            r@ == templates_at(all@, places@).take(i as int),
        decreases places.len() - i,
    {
        let place = places[i];
        assert(places@[i as int] < all@.len());
        r.push(copy_template(&all[place].template));
        assert(templates_at(all@, places@).take(i + 1) =~= templates_at(all@, places@).take(
            i as int,
        ).push(templates_at(all@, places@)[i as int]));
        i = i + 1;
    }
    assert(templates_at(all@, places@).take(i as int) =~= templates_at(all@, places@));
    r
}

/// Whether a result says how a vulnerability is covered by its templates.
pub open spec fn is_result(r: KevResult, kev: KevEntry, templates: Seq<KevNucleiTemplate>) -> bool {
    &&& r.cve@ == normalized(kev.cve_id@)
    &&& r.kev == kev
    &&& r.web_relevance == relevance(kev, templates).0
    &&& texts(r.web_relevance_reasons@) == seq![relevance(kev, templates).1]
    &&& r.nuclei_templates@ == templates
    &&& r.best_nuclei_state == best(templates)
    &&& r.observable == any_observable(templates)
    &&& r.convertible == any_convertible(templates)
    &&& r.validated == any_validated(templates)
}

/// Whether a CVE stands in one of the first `n` entries of a catalog.
pub open spec fn seen_before(catalog: Seq<KevEntry>, n: int, cve: Seq<char>) -> bool {
    exists|i: int| 0 <= i < n && normalized((#[trigger] catalog[i]).cve_id@) == cve
}

/// The templates of an entry of a catalog; the first entry with a CVE has them all.
pub open spec fn entry_templates(
    catalog: Seq<KevEntry>,
    all: Seq<NucleiTemplateInput>,
    n: int,
) -> Seq<KevNucleiTemplate> {
    let cve = normalized(catalog[n].cve_id@);
    if seen_before(catalog, n, cve) {
        seq![]
    } else {
        templates_at(all, places_of(all, cve))
    }
}

/// Whether there is a result for each entry of a catalog.
pub open spec fn are_results(
    results: Seq<KevResult>,
    catalog: Seq<KevEntry>,
    all: Seq<NucleiTemplateInput>,
) -> bool {
    &&& results.len() == catalog.len()
    &&& forall|i: int|
        0 <= i < catalog.len() ==> is_result(
            #[trigger] results[i],
            catalog[i],
            entry_templates(catalog, all, i),
        )
}

/// The first place of a list whose CVE comes after the given one.
pub open spec fn place_after(list: Seq<KevResult>, cve: Seq<char>) -> int
    decreases list.len(),
{
    if list.len() == 0 {
        0
    } else if text_before(cve, list[0].cve@) {
        0
    } else {
        1 + place_after(list.skip(1), cve)
    }
}

/// Results in the order of their CVEs; those of one CVE stay in their order.
pub open spec fn by_cve(results: Seq<KevResult>) -> Seq<KevResult>
    decreases results.len(),
{
    if results.len() == 0 {
        seq![]
    } else {
        let before = by_cve(results.drop_last());
        before.insert(place_after(before, results.last().cve@), results.last())
    }
}

pub open spec fn in_cve_order(list: Seq<KevResult>) -> bool {
    forall|i: int, j: int|
        0 <= i < j < list.len() ==> !text_before(
            (#[trigger] list[j]).cve@,
            (#[trigger] list[i]).cve@,
        )
}

proof fn lemma_place_after(list: Seq<KevResult>, cve: Seq<char>)
    requires
        in_cve_order(list),
    ensures
        0 <= place_after(list, cve) <= list.len(),
        forall|i: int|
            0 <= i < place_after(list, cve) ==> !text_before(cve, (#[trigger] list[i]).cve@),
        forall|i: int|
            place_after(list, cve) <= i < list.len() ==> text_before(cve, (#[trigger] list[i]).cve@),
    decreases list.len(),
{
    if list.len() > 0 {
        let rest = list.skip(1);
        assert forall|i: int, j: int| 0 <= i < j < rest.len() implies !text_before(
            (#[trigger] rest[j]).cve@,
            (#[trigger] rest[i]).cve@,
        ) by {
            assert(!text_before(list[j + 1].cve@, list[i + 1].cve@));
        }
        lemma_place_after(rest, cve);
        if text_before(cve, list[0].cve@) {
            assert forall|i: int| 0 <= i < list.len() implies text_before(
                cve,
                (#[trigger] list[i]).cve@,
            ) by {
                if i > 0 {
                    assert(!text_before(list[i].cve@, list[0].cve@));
                    text_order_is_total(list[0].cve@, list[i].cve@);
                    if text_before(list[0].cve@, list[i].cve@) {
                        text_order_is_transitive(cve, list[0].cve@, list[i].cve@);
                    }
                }
            }
        } else {
            assert forall|i: int| 0 <= i < place_after(list, cve) implies !text_before(
                cve,
                (#[trigger] list[i]).cve@,
            ) by {
                if i > 0 {
                    assert(rest[i - 1] == list[i]);
                }
            }
            assert forall|i: int| place_after(list, cve) <= i < list.len() implies text_before(
                cve,
                (#[trigger] list[i]).cve@,
            ) by {
                assert(rest[i - 1] == list[i]);
            }
        }
    }
}

/// A report lists every result, in the order of the CVEs.
pub proof fn results_are_ordered_by_cve(results: Seq<KevResult>)
    ensures
        in_cve_order(by_cve(results)),
        by_cve(results).to_multiset() == results.to_multiset(),
        by_cve(results).len() == results.len(),
    decreases results.len(),
{
    broadcast use vstd::seq_lib::group_to_multiset_ensures;

    if results.len() > 0 {
        let before = by_cve(results.drop_last());
        let r = results.last();
        results_are_ordered_by_cve(results.drop_last());
        lemma_place_after(before, r.cve@);
        let at = place_after(before, r.cve@);
        let list = by_cve(results);
        assert(list == before.insert(at, r));
        assert(results =~= results.drop_last().push(r));
        assert forall|i: int, j: int| 0 <= i < j < list.len() implies !text_before(
            (#[trigger] list[j]).cve@,
            (#[trigger] list[i]).cve@,
        ) by {
            if i < at && j == at {
                assert(!text_before(r.cve@, before[i].cve@));
            } else if i == at {
                assert(text_before(r.cve@, before[j - 1].cve@));
                text_order_is_total(r.cve@, before[j - 1].cve@);
            } else if i < at && j > at {
                assert(!text_before(before[j - 1].cve@, before[i].cve@));
            } else if i > at {
                assert(!text_before(before[j - 1].cve@, before[i - 1].cve@));
            } else {
                assert(!text_before(before[j].cve@, before[i].cve@));
            }
        }
    } else {
        assert(by_cve(results) =~= results);
    }
}

fn find_place(list: &Vec<KevResult>, cve: &str) -> (r: usize)
    requires
        in_cve_order(list@),
    ensures
        r == place_after(list@, cve@),
        r <= list@.len(),
{
    let mut low: usize = 0;
    let mut high: usize = list.len();
    proof {
        lemma_place_after(list@, cve@);
    }
    while low < high
        invariant
            0 <= place_after(list@, cve@) <= list@.len(),
            forall|i: int|
                0 <= i < place_after(list@, cve@) ==> !text_before(
                    cve@,
                    (#[trigger] list@[i]).cve@,
                ),
            forall|i: int|
                place_after(list@, cve@) <= i < list@.len() ==> text_before(
                    cve@,
                    (#[trigger] list@[i]).cve@,
                ),
            low <= place_after(list@, cve@) <= high <= list@.len(),
        decreases high - low,
    {
        let middle: usize = low + (high - low) / 2;
        assert(list@[middle as int].cve@ == list@[middle as int].cve@);
        match compare_text(cve, list[middle].cve.as_str()) {
            TextOrder::Before => {
                high = middle;
            },
            _ => {
                low = middle + 1;
            },
        }
    }
    low
}

/// What is counted of the results.
#[derive(Clone, Copy, Debug, PartialEq, Eq, Structural)]
pub enum Measure {
    WebRelevant,
    NotWebRelevant,
    Unknown,
    WithTemplate,
    WithHttpTemplate,
    Observable,
    Convertible,
    Validated,
    WithoutTemplate,
}

pub open spec fn counts(measure: Measure, r: KevResult) -> bool {
    let web = r.web_relevance == WebRelevance::WebRelevant;
    match measure {
        Measure::WebRelevant => web,
        Measure::NotWebRelevant => r.web_relevance == WebRelevance::NotWebRelevant,
        Measure::Unknown => r.web_relevance == WebRelevance::Unknown,
        Measure::WithTemplate => web && r.nuclei_templates@.len() > 0,
        Measure::WithHttpTemplate => web && any_http(r.nuclei_templates@),
        Measure::Observable => web && r.observable,
        Measure::Convertible => web && r.convertible,
        Measure::Validated => web && r.validated,
        Measure::WithoutTemplate => web && r.nuclei_templates@.len() == 0,
    }
}

pub open spec fn how_many(measure: Measure, results: Seq<KevResult>) -> nat
    decreases results.len(),
{
    if results.len() == 0 {
        0
    } else {
        how_many(measure, results.drop_last()) + if counts(measure, results.last()) {
            1nat
        } else {
            0nat
        }
    }
}

/// Whether the metrics count the results.
pub open spec fn are_metrics(m: KevCoverageMetrics, results: Seq<KevResult>) -> bool {
    &&& m.total_kevs == results.len()
    &&& m.web_relevant == how_many(Measure::WebRelevant, results)
    &&& m.not_web_relevant == how_many(Measure::NotWebRelevant, results)
    &&& m.unknown_web_relevance == how_many(Measure::Unknown, results)
    &&& m.web_relevant_with_nuclei_template == how_many(Measure::WithTemplate, results)
    &&& m.web_relevant_with_http_nuclei_template == how_many(Measure::WithHttpTemplate, results)
    &&& m.web_relevant_observable == how_many(Measure::Observable, results)
    &&& m.web_relevant_convertible == how_many(Measure::Convertible, results)
    &&& m.web_relevant_validated == how_many(Measure::Validated, results)
    &&& m.web_relevant_no_nuclei_template == how_many(Measure::WithoutTemplate, results)
}

proof fn lemma_how_many_bounded(measure: Measure, results: Seq<KevResult>)
    ensures
        how_many(measure, results) <= results.len(),
    decreases results.len(),
{
    if results.len() > 0 {
        lemma_how_many_bounded(measure, results.drop_last());
    }
}

/// Every vulnerability is relevant, not relevant or unknown, and every relevant one has templates
/// or has none.
pub proof fn measures_add_up(results: Seq<KevResult>)
    ensures
        how_many(Measure::WebRelevant, results) + how_many(Measure::NotWebRelevant, results)
            + how_many(Measure::Unknown, results) == results.len(),
        how_many(Measure::WithTemplate, results) + how_many(Measure::WithoutTemplate, results)
            == how_many(Measure::WebRelevant, results),
        how_many(Measure::WithHttpTemplate, results) <= how_many(Measure::WithTemplate, results),
    decreases results.len(),
{
    if results.len() > 0 {
        measures_add_up(results.drop_last());
    }
}

fn as_count(b: bool) -> (r: usize)
    ensures
        r == if b {
            1int
        } else {
            0int
        },
{
    if b {
        1
    } else {
        0
    }
}

/// The metrics with one more result.
fn count_result(m: KevCoverageMetrics, r: &KevResult, results: Ghost<Seq<KevResult>>) -> (next:
    KevCoverageMetrics)
    requires
        are_metrics(m, results@),
        results@.len() < usize::MAX,
    ensures
        are_metrics(next, results@.push(*r)),
{
    let mut next = m;
    proof {
        let all = results@.push(*r);
        assert(all.drop_last() =~= results@);
        lemma_how_many_bounded(Measure::WebRelevant, results@);
        lemma_how_many_bounded(Measure::NotWebRelevant, results@);
        lemma_how_many_bounded(Measure::Unknown, results@);
        lemma_how_many_bounded(Measure::WithTemplate, results@);
        lemma_how_many_bounded(Measure::WithHttpTemplate, results@);
        lemma_how_many_bounded(Measure::Observable, results@);
        lemma_how_many_bounded(Measure::Convertible, results@);
        lemma_how_many_bounded(Measure::Validated, results@);
        lemma_how_many_bounded(Measure::WithoutTemplate, results@);
    }
    next.total_kevs = next.total_kevs + 1;
    match r.web_relevance {
        WebRelevance::WebRelevant => {
            let http = traits_of(&r.nuclei_templates).http;
            let some = r.nuclei_templates.len() > 0;
            next.web_relevant = next.web_relevant + 1;
            next.web_relevant_with_nuclei_template = next.web_relevant_with_nuclei_template
                + as_count(some);
            next.web_relevant_with_http_nuclei_template =
            next.web_relevant_with_http_nuclei_template + as_count(http);
            next.web_relevant_observable = next.web_relevant_observable + as_count(r.observable);
            next.web_relevant_convertible = next.web_relevant_convertible + as_count(r.convertible);
            next.web_relevant_validated = next.web_relevant_validated + as_count(r.validated);
            next.web_relevant_no_nuclei_template = next.web_relevant_no_nuclei_template + as_count(
                !some,
            );
        },
        WebRelevance::NotWebRelevant => {
            next.not_web_relevant = next.not_web_relevant + 1;
        },
        WebRelevance::Unknown => {
            next.unknown_web_relevance = next.unknown_web_relevance + 1;
        },
    }
    next
}

/// The names of the states of the results.
pub open spec fn state_names(results: Seq<KevResult>) -> Seq<Seq<char>> {
    results.map_values(|r: KevResult| state_name(r.best_nuclei_state))
}

fn result_for(kev: &KevEntry, cve: String, templates: Vec<KevNucleiTemplate>) -> (r: KevResult)
    requires
        cve@ == normalized(kev.cve_id@),
    ensures
        is_result(r, *kev, templates@),
{
    let traits = traits_of(&templates);
    let (found, reasons) = web_relevance(kev, &templates);
    let state = best_state(&templates);
    KevResult {
        cve,
        kev: copy_entry(kev),
        web_relevance: found,
        web_relevance_reasons: reasons,
        nuclei_templates: templates,
        best_nuclei_state: state,
        observable: traits.observable,
        convertible: traits.convertible,
        validated: traits.validated,
    }
}

/// Whether a report covers a catalog.
pub open spec fn is_coverage(
    r: KevCoverageReport,
    catalog: KevCatalog,
    nuclei: NucleiCoverageInput,
    results: Seq<KevResult>,
) -> bool {
    &&& r.catalog_version == catalog.catalog_version
    &&& r.catalog_date_released == catalog.date_released
    &&& r.nuclei_revision == nuclei.nuclei_revision
    &&& r.web_relevance_methodology@ == METHODOLOGY@
    &&& are_results(results, catalog.vulnerabilities@, nuclei.templates@)
    &&& are_metrics(r.metrics, results)
    &&& r.state_counts.wf()
    &&& tallies(r.state_counts@, state_names(results))
    &&& r.entries@ == by_cve(results)
}

/// How the vulnerabilities of a catalog are covered by templates.
pub fn coverage(catalog: KevCatalog, nuclei: NucleiCoverageInput) -> (r: KevCoverageReport)
    ensures
        exists|results: Seq<KevResult>| #[trigger] is_coverage(r, catalog, nuclei, results),
{
    let list = &catalog.vulnerabilities;
    let all = &nuclei.templates;
    let index = index_templates(all);
    let total = all.len();
    let mut metrics = KevCoverageMetrics {
        total_kevs: 0,
        web_relevant: 0,
        not_web_relevant: 0,
        unknown_web_relevance: 0,
        web_relevant_with_nuclei_template: 0,
        web_relevant_with_http_nuclei_template: 0,
        web_relevant_observable: 0,
        web_relevant_convertible: 0,
        web_relevant_validated: 0,
        web_relevant_no_nuclei_template: 0,
    };
    let mut states: Vec<String> = Vec::new();
    let mut entries: Vec<KevResult> = Vec::new();
    let mut seen = TextSet::new();
    let ghost mut results: Seq<KevResult> = seq![];
    assert(texts(states@) =~= state_names(results));
    let mut i: usize = 0;
    while i < list.len()
        invariant
            index.wf(),
            seen.wf(),
            total == all@.len(),
            forall|cve: Seq<char>| #[trigger] indexed(index@, cve) == places_of(all@, cve),
            i <= list@.len(),
            results.len() == i,
            forall|j: int|
                0 <= j < i ==> is_result(
                    #[trigger] results[j],
                    list@[j],
                    entry_templates(list@, all@, j),
                ),
            forall|cve: Seq<char>| #[trigger]
                seen@.contains(cve) == seen_before(list@, i as int, cve),
            are_metrics(metrics, results),
            texts(states@) == state_names(results),
            entries@ == by_cve(results),
        decreases list.len() - i,
    {
        let kev = &list[i];
        let cve = normalize_cve(kev.cve_id.as_str());
        let ghost key = cve@;
        let mut templates: Vec<KevNucleiTemplate> = Vec::new();
        assert(templates@ =~= Seq::<KevNucleiTemplate>::empty());
        if !seen.contains(cve.as_str()) {
            if let Some(places) = index.get(cve.as_str()) {
                proof {
                    assert(indexed(index@, key) == places@);
                    lemma_places_exist(all@, key);
                }
                templates = copy_templates(all, places);
            } else {
                assert(indexed(index@, key) =~= Seq::<usize>::empty());
                assert(templates_at(all@, places_of(all@, key)) =~= templates@);
            }
        }
        let ghost before_seen = seen@;
        seen.insert(cve.clone());
        let result = result_for(kev, cve, templates);
        let ghost old_results = results;
        proof {
            results = results.push(result);
            assert(results.drop_last() =~= old_results);
            results_are_ordered_by_cve(old_results);
            assert forall|k: Seq<char>| #[trigger] seen@.contains(k) == seen_before(
                list@,
                i + 1,
                k,
            ) by {
                assert(before_seen.contains(k) == seen_before(list@, i as int, k));
                if k == key {
                    assert(normalized(list@[i as int].cve_id@) == k);
                }
                if seen_before(list@, i as int, k) {
                    let n = choose|n: int|
                        0 <= n < i as int && normalized((#[trigger] list@[n]).cve_id@) == k;
                    assert(normalized(list@[n].cve_id@) == k);
                }
            }
        }
        metrics = count_result(metrics, &result, Ghost(old_results));
        let ghost old_states = states@;
        let label = state_label(result.best_nuclei_state).to_owned();
        let ghost name = label@;
        states.push(label);
        proof {
            assert(texts(states@) =~= texts(old_states).push(name));
            assert(state_names(results) =~= state_names(old_results).push(name));
        }
        let at = find_place(&entries, result.cve.as_str());
        entries.insert(at, result);
        i = i + 1;
    }
    let state_counts = tally(&states);
    let r = KevCoverageReport {
        catalog_version: catalog.catalog_version,
        catalog_date_released: catalog.date_released,
        nuclei_revision: nuclei.nuclei_revision,
        web_relevance_methodology: METHODOLOGY.to_owned(),
        metrics,
        state_counts,
        entries,
    };
    assert(is_coverage(r, catalog, nuclei, results));
    r
}

pub open spec fn known_or_unknown(text: Option<Seq<char>>) -> Seq<char> {
    match text {
        Some(t) => t,
        None => "unknown"@,
    }
}

/// The lines in which the coverage of a catalog is reported.
pub open spec fn coverage_lines_of(report: KevCoverageReport) -> Seq<Seq<char>> {
    seq![
        "CISA KEV catalog:           "@ + known_or_unknown(opt_text(report.catalog_version)),
        "Catalog released:            "@ + known_or_unknown(opt_text(report.catalog_date_released)),
        "Nuclei revision:             "@ + report.nuclei_revision@,
        ""@,
        "KEVs:"@,
        "Total:                       "@ + decimal(report.metrics.total_kevs as nat),
        "Web relevant:                "@ + decimal(report.metrics.web_relevant as nat),
        "Not web relevant:            "@ + decimal(report.metrics.not_web_relevant as nat),
        "Unknown relevance:           "@ + decimal(report.metrics.unknown_web_relevance as nat),
        ""@,
        "Web-relevant KEVs:"@,
        "With Nuclei template:        "@ + decimal(report.metrics.web_relevant_with_nuclei_template as nat),
        "With HTTP Nuclei template:   "@ + decimal(report.metrics.web_relevant_with_http_nuclei_template as nat),
        "Observable:                  "@ + decimal(report.metrics.web_relevant_observable as nat),
        "Convertible:                 "@ + decimal(report.metrics.web_relevant_convertible as nat),
        "Validated:                   "@ + decimal(report.metrics.web_relevant_validated as nat),
        "No Nuclei template:          "@ + decimal(report.metrics.web_relevant_no_nuclei_template as nat),
    ]
}

fn or_unknown(text: &Option<String>) -> (r: &str)
    ensures
        r@ == known_or_unknown(opt_text(*text)),
{
    match text {
        Some(t) => t.as_str(),
        None => "unknown",
    }
}

fn labelled(label: &str, value: &str) -> (r: String)
    ensures
        r@ == label@ + value@,
{
    let mut line = label.to_owned();
    line.append(value);
    line
}

fn counted(label: &str, count: usize) -> (r: String)
    ensures
        r@ == label@ + decimal(count as nat),
{
    labelled(label, decimal_text(count as u64).as_str())
}

pub fn coverage_lines(report: &KevCoverageReport) -> (r: Vec<String>)
    ensures
        texts(r@) == coverage_lines_of(*report),
{
    let mut lines: Vec<String> = Vec::new();
    lines.push(labelled("CISA KEV catalog:           ", or_unknown(&report.catalog_version)));
    lines.push(labelled("Catalog released:            ", or_unknown(&report.catalog_date_released)));
    lines.push(labelled("Nuclei revision:             ", report.nuclei_revision.as_str()));
    lines.push("".to_owned());
    lines.push("KEVs:".to_owned());
    lines.push(counted("Total:                       ", report.metrics.total_kevs));
    lines.push(counted("Web relevant:                ", report.metrics.web_relevant));
    lines.push(counted("Not web relevant:            ", report.metrics.not_web_relevant));
    lines.push(counted("Unknown relevance:           ", report.metrics.unknown_web_relevance));
    lines.push("".to_owned());
    lines.push("Web-relevant KEVs:".to_owned());
    lines.push(counted("With Nuclei template:        ", report.metrics.web_relevant_with_nuclei_template));
    lines.push(counted("With HTTP Nuclei template:   ", report.metrics.web_relevant_with_http_nuclei_template));
    lines.push(counted("Observable:                  ", report.metrics.web_relevant_observable));
    lines.push(counted("Convertible:                 ", report.metrics.web_relevant_convertible));
    lines.push(counted("Validated:                   ", report.metrics.web_relevant_validated));
    lines.push(counted("No Nuclei template:          ", report.metrics.web_relevant_no_nuclei_template));
    assert(texts(lines@) =~= coverage_lines_of(*report));
    lines
}

} // verus!
