//! Preparation of public inputs, and the listing of static matchers.

use crate::disposition::{compare_parts, key_before, part_order_is_total};
use crate::event::opt_str;
use crate::finding::RequestSpecificity;
use crate::ordered::{find_place_after, lemma_place_after, nondecreasing, place_after};
use crate::text::{
    chars_of, decimal, ends_with_text, line_list, lines, matches_at, opt_text, push_decimal,
    starts_with_text, text_between, texts, TextOrder,
};
use vstd::prelude::*;
use vstd::string::*;

verus! {

broadcast use vstd::string::group_string_axioms;

/// What a preparation fetches.
#[derive(Clone, Copy, Debug, PartialEq, Eq, Structural)]
pub struct SetupPlan {
    pub include_nuclei: bool,
    pub include_reputation: bool,
    pub include_asn: bool,
}

/// Everything that is not skipped.
pub fn setup_plan(skip_nuclei: bool, skip_reputation: bool, skip_asn: bool) -> (r: SetupPlan)
    ensures
        r.include_nuclei == !skip_nuclei,
        r.include_reputation == !skip_reputation,
        r.include_asn == !skip_asn,
{
    SetupPlan {
        include_nuclei: !skip_nuclei,
        include_reputation: !skip_reputation,
        include_asn: !skip_asn,
    }
}

/// How a step went: not taken, done, or failed with a message.
#[derive(Clone, Debug)]
pub enum StepOutcome {
    NotTaken,
    Done,
    Failed(String),
}

/// What a preparation reports, and its failure where it has one.
#[derive(Clone, Debug)]
pub struct SetupSummary {
    pub lines: Vec<String>,
    pub failure: Option<String>,
}

pub open spec fn done_lines(before: Seq<Seq<char>>, step: Seq<char>, outcome: StepOutcome) -> Seq<
    Seq<char>,
> {
    match outcome {
        StepOutcome::Done => before.push("  completed: "@ + step),
        _ => before,
    }
}

pub open spec fn failed_lines(before: Seq<Seq<char>>, step: Seq<char>, outcome: StepOutcome) -> Seq<
    Seq<char>,
> {
    match outcome {
        StepOutcome::Failed(message) => before.push("  failed: "@ + step + ": "@ + message@),
        _ => before,
    }
}

pub open spec fn first_failure(nuclei: StepOutcome, inputs: StepOutcome) -> Option<Seq<char>> {
    match (nuclei, inputs) {
        (StepOutcome::Failed(message), _) => Some(message@),
        (_, StepOutcome::Failed(message)) => Some(message@),
        _ => None,
    }
}

pub open spec fn nothing_selected(plan: SetupPlan) -> bool {
    !plan.include_nuclei && !plan.include_reputation && !plan.include_asn
}

/// The report of a preparation: what was done, then what failed. What was transmitted is said
/// whatever the outcome.
pub open spec fn summary_lines(plan: SetupPlan, nuclei: StepOutcome, inputs: StepOutcome) -> Seq<
    Seq<char>,
> {
    if nothing_selected(plan) {
        seq!["Setup summary: no preparation steps selected (all were skipped)."@]
    } else {
        let first = "Nuclei templates and frozen report"@;
        let second = "reputation/ASN inputs"@;
        let l0: Seq<Seq<char>> = seq!["Setup summary:"@];
        let l1 = done_lines(done_lines(l0, first, nuclei), second, inputs);
        let l2 = failed_lines(failed_lines(l1, first, nuclei), second, inputs);
        let l3 = l2.push(
            "Public intelligence only was downloaded; no customer data was transmitted. The shenron analysis binary remains offline."@,
        ).push(
            "Review and comply with each source's terms of use before relying on these lists."@,
        );
        if first_failure(nuclei, inputs) is Some {
            l3
        } else {
            l3.push("Next: shenron production hunt --input <logs> --format <fmt>"@)
        }
    }
}

pub open spec fn summary_failure(plan: SetupPlan, nuclei: StepOutcome, inputs: StepOutcome) -> Option<
    Seq<char>,
> {
    if nothing_selected(plan) {
        None
    } else {
        match first_failure(nuclei, inputs) {
            Some(message) => Some("setup completed with failures: "@ + message),
            None => None,
        }
    }
}

fn push_line(list: &mut Vec<String>, line: String)
    ensures
        texts(final(list)@) == texts(old(list)@).push(line@),
{
    let ghost before = list@;
    let ghost text = line@;
    list.push(line);
    assert(texts(list@) =~= texts(before).push(text));
}

fn push_done(list: &mut Vec<String>, step: &str, outcome: &StepOutcome)
    ensures
        texts(final(list)@) == done_lines(texts(old(list)@), step@, *outcome),
{
    match outcome {
        StepOutcome::Done => {
            let mut line = "  completed: ".to_owned();
            line.append(step);
            push_line(list, line);
        },
        _ => {},
    }
}

fn push_failed(list: &mut Vec<String>, step: &str, outcome: &StepOutcome)
    ensures
        texts(final(list)@) == failed_lines(texts(old(list)@), step@, *outcome),
{
    match outcome {
        StepOutcome::Failed(message) => {
            let mut line = "  failed: ".to_owned();
            line.append(step);
            line.append(": ");
            line.append(message.as_str());
            push_line(list, line);
        },
        _ => {},
    }
}

/// Reports a preparation, given how its steps went.
pub fn setup_summary(plan: SetupPlan, nuclei: &StepOutcome, inputs: &StepOutcome) -> (r:
    SetupSummary)
    ensures
        texts(r.lines@) == summary_lines(plan, *nuclei, *inputs),
        opt_text(r.failure) == summary_failure(plan, *nuclei, *inputs),
{
    let mut list: Vec<String> = Vec::new();
    if !plan.include_nuclei && !plan.include_reputation && !plan.include_asn {
        list.push("Setup summary: no preparation steps selected (all were skipped).".to_owned());
        assert(texts(list@) =~= seq![
            "Setup summary: no preparation steps selected (all were skipped)."@,
        ]);
        return SetupSummary { lines: list, failure: None };
    }
    list.push("Setup summary:".to_owned());
    assert(texts(list@) =~= seq!["Setup summary:"@]);
    push_done(&mut list, "Nuclei templates and frozen report", nuclei);
    push_done(&mut list, "reputation/ASN inputs", inputs);
    push_failed(&mut list, "Nuclei templates and frozen report", nuclei);
    push_failed(&mut list, "reputation/ASN inputs", inputs);
    push_line(
        &mut list,
        "Public intelligence only was downloaded; no customer data was transmitted. The shenron analysis binary remains offline.".to_owned(),
    );
    push_line(
        &mut list,
        "Review and comply with each source's terms of use before relying on these lists.".to_owned(),
    );
    let message: Option<&String> = match nuclei {
        StepOutcome::Failed(message) => Some(message),
        _ => match inputs {
            StepOutcome::Failed(message) => Some(message),
            _ => None,
        },
    };
    match message {
        Some(message) => {
            let mut failure = "setup completed with failures: ".to_owned();
            failure.append(message.as_str());
            SetupSummary { lines: list, failure: Some(failure) }
        },
        None => {
            push_line(
                &mut list,
                "Next: shenron production hunt --input <logs> --format <fmt>".to_owned(),
            );
            SetupSummary { lines: list, failure: None }
        },
    }
}

/// The branch that a line names as the head, where it does.
pub open spec fn branch_of(line: Seq<char>) -> Option<Seq<char>> {
    let head = "ref: refs/heads/"@;
    let tail = "\tHEAD"@;
    if starts_with_text(line, head) && ends_with_text(line.skip(head.len() as int), tail) {
        Some(line.subrange(head.len() as int, line.len() - tail.len()))
    } else {
        None
    }
}

pub open spec fn first_branch(list: Seq<Seq<char>>) -> Option<Seq<char>>
    decreases list.len(),
{
    if list.len() == 0 {
        None
    } else {
        match branch_of(list[0]) {
            Some(branch) => Some(branch),
            None => first_branch(list.skip(1)),
        }
    }
}

fn read_branch(line: &str) -> (r: Option<String>)
    ensures
        opt_text(r) == branch_of(line@),
{
    let chars = chars_of(line);
    let head = chars_of("ref: refs/heads/");
    let tail = chars_of("\tHEAD");
    proof {
        reveal_strlit("ref: refs/heads/");
        reveal_strlit("\tHEAD");
    }
    if !matches_at(&chars, &head, 0) {
        return None;
    }
    let ghost rest = line@.skip(head@.len() as int);
    if chars.len() < head.len() + tail.len() {
        return None;
    }
    let end = chars.len() - tail.len();
    proof {
        assert(rest.len() == line@.len() - head@.len());
        assert(rest.subrange(rest.len() - tail@.len(), rest.len() as int) =~= line@.subrange(
            end as int,
            line@.len() as int,
        ));
    }
    if !matches_at(&chars, &tail, end) {
        return None;
    }
    Some(text_between(&chars, head.len(), end))
}

/// The default branch of a repository, from what `git ls-remote --symref origin HEAD` printed.
pub fn default_branch_target(output: &str) -> (r: Option<String>)
    ensures
        opt_text(r) == (match first_branch(line_list(output@)) {
            Some(branch) => Some("origin/"@ + branch),
            None => None,
        }),
{
    let list = lines(output);
    let ghost all = texts(list@);
    let mut i: usize = 0;
    assert(all.skip(0) =~= all);
    while i < list.len()
        invariant
            all == texts(list@),
            all == line_list(output@),
            i <= list@.len(),
            first_branch(all) == first_branch(all.skip(i as int)),
        decreases list.len() - i,
    {
        proof {
            assert(all[i as int] == list@[i as int]@);
            assert(all.skip(i as int)[0] == all[i as int]);
            assert(all.skip(i as int).skip(1) =~= all.skip(i + 1));
        }
        if let Some(branch) = read_branch(list[i].as_str()) {
            let mut r = "origin/".to_owned();
            r.append(branch.as_str());
            return Some(r);
        }
        i = i + 1;
    }
    None
}

/// A literal matcher of a template, for review. It holds nothing of a request.
#[derive(Clone, Debug)]
pub struct MatcherRecord {
    pub template_id: String,
    pub cves: Vec<String>,
    pub method: String,
    pub path: String,
    pub query: Option<String>,
    pub fragment: Option<String>,
    pub headers: Vec<(String, String)>,
    pub request_specificity: RequestSpecificity,
    /// How distinctive the path is, in a word.
    pub path_distinctiveness: String,
}

/// Names and values in turn.
pub open spec fn flat(headers: Seq<(String, String)>) -> Seq<Option<Seq<char>>>
    decreases headers.len(),
{
    if headers.len() == 0 {
        Seq::empty()
    } else {
        flat(headers.drop_last()).push(Some(headers.last().0@)).push(Some(headers.last().1@))
    }
}

/// What matchers are ordered by: template, path, query, method, fragment and headers.
pub open spec fn matcher_key(m: MatcherRecord) -> Seq<Option<Seq<char>>> {
    seq![
        Some(m.template_id@),
        Some(m.path@),
        opt_text(m.query),
        Some(m.method@),
        opt_text(m.fragment),
    ] + flat(m.headers@)
}

fn opt_text_str(value: &Option<String>) -> (r: Option<&str>)
    ensures
        opt_str(r) == opt_text(*value),
{
    match value {
        Some(text) => Some(text.as_str()),
        None => None,
    }
}

pub open spec fn part_texts(parts: Seq<Option<&str>>) -> Seq<Option<Seq<char>>> {
    parts.map_values(|p: Option<&str>| opt_str(p))
}

fn push_part<'a>(parts: &mut Vec<Option<&'a str>>, part: Option<&'a str>)
    ensures
        part_texts(final(parts)@) == part_texts(old(parts)@).push(opt_str(part)),
{
    let ghost before = parts@;
    parts.push(part);
    assert(part_texts(parts@) =~= part_texts(before).push(opt_str(part)));
}

fn key_parts(m: &MatcherRecord) -> (r: Vec<Option<&str>>)
    ensures
        part_texts(r@) == matcher_key(*m),
{
    let mut parts: Vec<Option<&str>> = Vec::new();
    assert(part_texts(parts@) =~= Seq::<Option<Seq<char>>>::empty());
    push_part(&mut parts, Some(m.template_id.as_str()));
    push_part(&mut parts, Some(m.path.as_str()));
    push_part(&mut parts, opt_text_str(&m.query));
    push_part(&mut parts, Some(m.method.as_str()));
    push_part(&mut parts, opt_text_str(&m.fragment));
    let ghost head = part_texts(parts@);
    assert(head =~= seq![
        Some(m.template_id@),
        Some(m.path@),
        opt_text(m.query),
        Some(m.method@),
        opt_text(m.fragment),
    ]);
    let mut i: usize = 0;
    assert(head + flat(m.headers@.take(0)) =~= head);
    while i < m.headers.len()
        invariant
            i <= m.headers@.len(),
            part_texts(parts@) == head + flat(m.headers@.take(i as int)),
        decreases m.headers.len() - i,
    {
        proof {
            assert(m.headers@.take(i + 1).drop_last() =~= m.headers@.take(i as int));
            assert(m.headers@.take(i + 1).last() == m.headers@[i as int]);
        }
        push_part(&mut parts, Some(m.headers[i].0.as_str()));
        push_part(&mut parts, Some(m.headers[i].1.as_str()));
        assert(part_texts(parts@) =~= head + flat(m.headers@.take(i + 1)));
        i = i + 1;
    }
    assert(m.headers@.take(i as int) =~= m.headers@);
    parts
}

fn is_key_before(a: &Vec<Option<&str>>, b: &Vec<Option<&str>>) -> (r: bool)
    ensures
        r == key_before(part_texts(a@), part_texts(b@)),
{
    let ghost x = part_texts(a@);
    let ghost y = part_texts(b@);
    let mut i: usize = 0;
    assert(x.skip(0) =~= x);
    assert(y.skip(0) =~= y);
    while i < a.len() && i < b.len()
        invariant
            x == part_texts(a@),
            y == part_texts(b@),
            i <= a@.len(),
            i <= b@.len(),
            key_before(x, y) == key_before(x.skip(i as int), y.skip(i as int)),
        decreases a.len() - i,
    {
        proof {
            assert(x[i as int] == opt_str(a@[i as int]));
            assert(y[i as int] == opt_str(b@[i as int]));
            assert(x.skip(i as int)[0] == x[i as int]);
            assert(y.skip(i as int)[0] == y[i as int]);
            assert(x.skip(i as int).skip(1) =~= x.skip(i + 1));
            assert(y.skip(i as int).skip(1) =~= y.skip(i + 1));
            part_order_is_total(x[i as int], y[i as int]);
        }
        match compare_parts(a[i], b[i]) {
            TextOrder::Before => {
                return true;
            },
            TextOrder::After => {
                return false;
            },
            TextOrder::Same => {},
        }
        i = i + 1;
    }
    assert(x.skip(i as int).len() == a@.len() - i);
    assert(y.skip(i as int).len() == b@.len() - i);
    i >= a.len() && i < b.len()
}

/// Texts in order; equal ones stay as they were.
pub open spec fn sorted_texts(list: Seq<Seq<char>>) -> Seq<Seq<char>>
    decreases list.len(),
{
    if list.len() == 0 {
        Seq::empty()
    } else {
        let before = sorted_texts(list.drop_last());
        before.insert(place_after(before, list.last()), list.last())
    }
}

/// Sorting puts texts in order and keeps each of them.
pub proof fn sorted_texts_are_in_order(list: Seq<Seq<char>>)
    ensures
        nondecreasing(sorted_texts(list)),
        sorted_texts(list).to_multiset() == list.to_multiset(),
    decreases list.len(),
{
    broadcast use vstd::seq_lib::group_to_multiset_ensures;

    if list.len() > 0 {
        let before = sorted_texts(list.drop_last());
        sorted_texts_are_in_order(list.drop_last());
        lemma_place_after(before, list.last());
        assert(list =~= list.drop_last().push(list.last()));
    } else {
        assert(sorted_texts(list) =~= list);
    }
}

fn sort_texts(list: &Vec<String>) -> (r: Vec<String>)
    ensures
        texts(r@) == sorted_texts(texts(list@)),
{
    let ghost all = texts(list@);
    let mut r: Vec<String> = Vec::new();
    assert(texts(r@) =~= Seq::<Seq<char>>::empty());
    let mut i: usize = 0;
    while i < list.len()
        invariant
            all == texts(list@),
            i <= list@.len(),
            texts(r@) == sorted_texts(all.take(i as int)),
        decreases list.len() - i,
    {
        proof {
            assert(all.take(i + 1).drop_last() =~= all.take(i as int));
            assert(all.take(i + 1).last() == list@[i as int]@);
            sorted_texts_are_in_order(all.take(i as int));
        }
        let ghost before = r@;
        let at = find_place_after(&r, list[i].as_str());
        r.insert(at, list[i].clone());
        assert(texts(r@) =~= texts(before).insert(at as int, list@[i as int]@));
        i = i + 1;
    }
    assert(all.take(i as int) =~= all);
    r
}

/// The first place of a list whose matcher does not come before the given one.
pub open spec fn matcher_place(list: Seq<MatcherRecord>, m: MatcherRecord) -> int
    decreases list.len(),
{
    if list.len() == 0 || !key_before(matcher_key(list[0]), matcher_key(m)) {
        0
    } else {
        1 + matcher_place(list.skip(1), m)
    }
}

/// Matchers in order; those that are equal in order stay as they were.
pub open spec fn matcher_order(list: Seq<MatcherRecord>) -> Seq<MatcherRecord>
    decreases list.len(),
{
    if list.len() == 0 {
        Seq::empty()
    } else {
        let rest = matcher_order(list.skip(1));
        rest.insert(matcher_place(rest, list[0]), list[0])
    }
}

fn find_matcher_place(list: &Vec<MatcherRecord>, m: &MatcherRecord) -> (r: usize)
    ensures
        r == matcher_place(list@, *m),
        r <= list@.len(),
{
    let key = key_parts(m);
    let mut i: usize = 0;
    assert(list@.skip(0) =~= list@);
    while i < list.len()
        invariant
            part_texts(key@) == matcher_key(*m),
            i <= list@.len(),
            matcher_place(list@, *m) == i + matcher_place(list@.skip(i as int), *m),
        decreases list.len() - i,
    {
        assert(list@.skip(i as int)[0] == list@[i as int]);
        assert(list@.skip(i as int).skip(1) =~= list@.skip(i + 1));
        if !is_key_before(&key_parts(&list[i]), &key) {
            return i;
        }
        i = i + 1;
    }
    i
}

/// Whether a list is another one with the CVEs of each matcher in order.
pub open spec fn cves_sorted(list: Seq<MatcherRecord>, given: Seq<MatcherRecord>) -> bool {
    &&& list.len() == given.len()
    &&& forall|i: int|
        0 <= i < list.len() ==> {
            let (a, b) = (#[trigger] list[i], given[i]);
            &&& texts(a.cves@) == sorted_texts(texts(b.cves@))
            &&& a.template_id == b.template_id
            &&& a.method == b.method
            &&& a.path == b.path
            &&& a.query == b.query
            &&& a.fragment == b.fragment
            &&& a.headers == b.headers
            &&& a.request_specificity == b.request_specificity
            &&& a.path_distinctiveness == b.path_distinctiveness
        }
}

fn with_sorted_cves(m: MatcherRecord) -> (r: MatcherRecord)
    ensures
        texts(r.cves@) == sorted_texts(texts(m.cves@)),
        r.template_id == m.template_id,
        r.method == m.method,
        r.path == m.path,
        r.query == m.query,
        r.fragment == m.fragment,
        r.headers == m.headers,
        r.request_specificity == m.request_specificity,
        r.path_distinctiveness == m.path_distinctiveness,
{
    let mut r = m;
    r.cves = sort_texts(&r.cves);
    r
}

/// The matchers of a listing: each with its CVEs in order, and all of them in order.
pub fn matcher_records(given: Vec<MatcherRecord>) -> (r: Vec<MatcherRecord>)
    ensures
        exists|list: Seq<MatcherRecord>| #[trigger]
            cves_sorted(list, given@) && r@ == matcher_order(list),
{
    let ghost all = given@;
    let mut rest = given;
    let mut r: Vec<MatcherRecord> = Vec::new();
    let ghost mut list: Seq<MatcherRecord> = Seq::empty();
    assert(r@ =~= Seq::<MatcherRecord>::empty());
    while rest.len() > 0
        invariant
            rest@.len() <= all.len(),
            rest@ == all.take(rest@.len() as int),
            cves_sorted(list, all.skip(rest@.len() as int)),
            r@ == matcher_order(list),
        decreases rest.len(),
    {
        let ghost n = rest@.len() as int;
        let ghost sorted = r@;
        let ghost old_list = list;
        match rest.pop() {
            Some(given) => {
                proof {
                    assert(all.take(n)[n - 1] == all[n - 1]);
                    assert(rest@ =~= all.take(n - 1));
                    assert(all.skip(n - 1)[0] == given);
                    assert(all.skip(n - 1).skip(1) =~= all.skip(n));
                }
                let m = with_sorted_cves(given);
                let ghost next = seq![m] + old_list;
                proof {
                    assert(next.skip(1) =~= old_list);
                    assert forall|i: int| 0 <= i < next.len() implies {
                        let (a, b) = (#[trigger] next[i], all.skip(n - 1)[i]);
                        &&& texts(a.cves@) == sorted_texts(texts(b.cves@))
                        &&& a.template_id == b.template_id
                        &&& a.method == b.method
                        &&& a.path == b.path
                        &&& a.query == b.query
                        &&& a.fragment == b.fragment
                        &&& a.headers == b.headers
                        &&& a.request_specificity == b.request_specificity
                        &&& a.path_distinctiveness == b.path_distinctiveness
                    } by {
                        if i > 0 {
                            assert(next[i] == old_list[i - 1]);
                            assert(all.skip(n - 1)[i] == all.skip(n)[i - 1]);
                        }
                    }
                    list = next;
                }
                let at = find_matcher_place(&r, &m);
                r.insert(at, m);
                assert(r@ =~= sorted.insert(at as int, m));
            },
            None => {},
        }
    }
    assert(all.skip(0) =~= all);
    assert(cves_sorted(list, all) && r@ == matcher_order(list));
    r
}

pub open spec fn matcher_target(m: MatcherRecord) -> Seq<char> {
    m.path@ + (match m.query {
        Some(query) => "?"@ + query@,
        None => ""@,
    }) + (match m.fragment {
        Some(fragment) => "#"@ + fragment@,
        None => ""@,
    })
}

pub open spec fn specificity_name(s: RequestSpecificity) -> Seq<char> {
    match s {
        RequestSpecificity::RequestSpecific => "request-specific"@,
        RequestSpecificity::ResponseUnverified => "response-unverified"@,
    }
}

/// A matcher on a line.
pub open spec fn matcher_text(m: MatcherRecord) -> Seq<char> {
    m.template_id@ + "  "@ + m.method@ + " "@ + matcher_target(m) + "  ["@ + decimal(
        m.headers@.len(),
    ) + " headers]  "@ + specificity_name(m.request_specificity) + "  "@ + m.path_distinctiveness@
}

impl MatcherRecord {
    fn target(&self) -> (r: String)
        ensures
            r@ == matcher_target(*self),
    {
        let mut r = self.path.clone();
        let mut query = "".to_owned();
        if let Some(text) = &self.query {
            query = "?".to_owned();
            query.append(text.as_str());
        }
        r.append(query.as_str());
        let mut fragment = "".to_owned();
        if let Some(text) = &self.fragment {
            fragment = "#".to_owned();
            fragment.append(text.as_str());
        }
        r.append(fragment.as_str());
        r
    }

    pub fn line(&self) -> (r: String)
        ensures
            r@ == matcher_text(*self),
    {
        let mut r = self.template_id.clone();
        r.append("  ");
        r.append(self.method.as_str());
        r.append(" ");
        r.append(self.target().as_str());
        r.append("  [");
        push_decimal(&mut r, self.headers.len() as u64);
        r.append(" headers]  ");
        r.append(
            match self.request_specificity {
                RequestSpecificity::RequestSpecific => "request-specific",
                RequestSpecificity::ResponseUnverified => "response-unverified",
            },
        );
        r.append("  ");
        r.append(self.path_distinctiveness.as_str());
        r
    }
}

} // verus!
