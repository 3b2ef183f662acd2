//! What exported rules mean: the requests that a written statement selects are those of which the
//! condition holds that it was written for.

use crate::candidate::DefensiveCandidate;
use crate::condition::{holds, DefensiveCondition};
use crate::event::WebEvent;
use crate::export::{
    aws_field, aws_model, aws_models, aws_rule_model, empty_object, leaf_constraint, leaf_value,
    terraform_field, terraform_parts, terraform_rule_text, terraform_text,
};
use crate::json::{field_of, first_field, json_escaped, json_quoted, replaced, single, JsonModel};
use crate::text::{decimal, lower, opt_text};
use vstd::prelude::*;

verus! {

/// The part of a request that a statement compares.
pub enum Part {
    Path,
    Query,
    Method,
    Header(Seq<char>),
    Ja3,
    Ja4,
}

/// Whether a part of a request has a value. The host and the user agent are headers that an event
/// holds apart from the others; the names of headers are the same whatever their case.
pub open spec fn has_value(part: Part, e: WebEvent, value: Seq<char>) -> bool {
    match part {
        Part::Path => opt_text(e.uri_path) == Some(value),
        Part::Query => opt_text(e.uri_query) == Some(value),
        Part::Method => opt_text(e.method) == Some(value),
        Part::Ja3 => opt_text(e.ja3) == Some(value),
        Part::Ja4 => opt_text(e.ja4) == Some(value),
        Part::Header(name) => if lower(name) == "host"@ {
            opt_text(e.host) == Some(value)
        } else if lower(name) == "user-agent"@ {
            opt_text(e.user_agent) == Some(value)
        } else {
            has_header(e, name, value)
        },
    }
}

/// Whether an event holds a header with a name and a value.
pub open spec fn has_header(e: WebEvent, name: Seq<char>, value: Seq<char>) -> bool {
    exists|i: int|
        0 <= i < e.headers@.len() && lower((#[trigger] e.headers@[i]).name@) == lower(name)
            && e.headers@[i].value@ == value
}

/// How a statement compares.
pub enum Comparison {
    Exactly,
    Contains,
    StartsWith,
}

/// Whether a value stands to a searched text as a comparison asks.
pub open spec fn compares(comparison: Comparison, value: Seq<char>, searched: Seq<char>) -> bool {
    match comparison {
        Comparison::Exactly => value == searched,
        Comparison::Contains => exists|a: Seq<char>, b: Seq<char>|
            value == #[trigger] (a + searched + b),
        Comparison::StartsWith => exists|b: Seq<char>| value == #[trigger] (searched + b),
    }
}

/// Whether some value of a part of a request stands to a searched text as a comparison asks.
pub open spec fn byte_match(
    part: Part,
    comparison: Comparison,
    searched: Seq<char>,
    e: WebEvent,
) -> bool {
    exists|value: Seq<char>| #[trigger]
        has_value(part, e, value) && compares(comparison, value, searched)
}

/// Whether an event says the same of its host and its user agent as its headers do.
pub open spec fn headers_agree(e: WebEvent) -> bool {
    forall|value: Seq<char>|
        {
            &&& #[trigger] has_header(e, "host"@, value) == (opt_text(e.host) == Some(value))
            &&& has_header(e, "user-agent"@, value) == (opt_text(e.user_agent) == Some(value))
        }
}

/// Whether a condition asks for the host or the user agent as one of the other headers.
pub open spec fn names_own_header(c: DefensiveCondition) -> bool
    decreases c,
{
    match c {
        DefensiveCondition::HeaderEquals { name, .. } => lower(name@) == "host"@ || lower(name@)
            == "user-agent"@,
        DefensiveCondition::HeaderContains { name, .. } => lower(name@) == "host"@ || lower(name@)
            == "user-agent"@,
        DefensiveCondition::And { conditions } => exists|i: int|
            0 <= i < conditions@.len() && names_own_header(#[trigger] conditions@[i]),
        DefensiveCondition::Or { conditions } => exists|i: int|
            0 <= i < conditions@.len() && names_own_header(#[trigger] conditions@[i]),
        DefensiveCondition::Not { condition } => names_own_header(*condition),
        _ => false,
    }
}

/// Whether an event can be asked a condition by header names alone.
pub open spec fn can_be_asked(c: DefensiveCondition, e: WebEvent) -> bool {
    headers_agree(e) || !names_own_header(c)
}

pub open spec fn is_leaf(c: DefensiveCondition) -> bool {
    !(c is And) && !(c is Or) && !(c is Not)
}

/// What a condition without parts compares.
spec fn part_of(c: DefensiveCondition) -> Part {
    match c {
        DefensiveCondition::UriEquals { .. } => Part::Path,
        DefensiveCondition::UriContains { .. } => Part::Path,
        DefensiveCondition::UriStartsWith { .. } => Part::Path,
        DefensiveCondition::QueryEquals { .. } => Part::Query,
        DefensiveCondition::QueryContains { .. } => Part::Query,
        DefensiveCondition::MethodEquals { .. } => Part::Method,
        DefensiveCondition::HostEquals { .. } => Part::Header("host"@),
        DefensiveCondition::HeaderEquals { name, .. } => Part::Header(lower(name@)),
        DefensiveCondition::HeaderContains { name, .. } => Part::Header(lower(name@)),
        DefensiveCondition::Ja3Equals { .. } => Part::Ja3,
        DefensiveCondition::Ja4Equals { .. } => Part::Ja4,
        _ => Part::Header("user-agent"@),
    }
}

spec fn comparison_of(c: DefensiveCondition) -> Comparison {
    match c {
        DefensiveCondition::UriContains { .. } => Comparison::Contains,
        DefensiveCondition::QueryContains { .. } => Comparison::Contains,
        DefensiveCondition::HeaderContains { .. } => Comparison::Contains,
        DefensiveCondition::UserAgentContains { .. } => Comparison::Contains,
        DefensiveCondition::UriStartsWith { .. } => Comparison::StartsWith,
        _ => Comparison::Exactly,
    }
}

proof fn lemma_lower_again(s: Seq<char>)
    ensures
        lower(lower(s)) == lower(s),
{
    assert(lower(lower(s)) =~= lower(s));
}

proof fn lemma_own_names()
    ensures
        lower("host"@) == "host"@,
        lower("user-agent"@) == "user-agent"@,
        "host"@ != "user-agent"@,
{
    reveal_strlit("host");
    reveal_strlit("user-agent");
    assert(lower("host"@) =~= "host"@);
    assert(lower("user-agent"@) =~= "user-agent"@);
    assert("host"@.len() != "user-agent"@.len());
}

/// To contain a text is to be that text with something before and after it, and to start with one
/// is to be it with something after it.
proof fn lemma_compares(value: Seq<char>, searched: Seq<char>)
    ensures
        crate::text::contains_text(value, searched) == compares(
            Comparison::Contains,
            value,
            searched,
        ),
        crate::text::starts_with_text(value, searched) == compares(
            Comparison::StartsWith,
            value,
            searched,
        ),
{
    let n = searched.len() as int;
    if crate::text::contains_text(value, searched) {
        let at = choose|at: int| crate::text::occurs_at(value, searched, at);
        let (a, b) = (value.take(at), value.skip(at + n));
        assert(value =~= a + searched + b);
    }
    if compares(Comparison::Contains, value, searched) {
        let (a, b) = choose|a: Seq<char>, b: Seq<char>| value == #[trigger] (a + searched + b);
        assert(value.subrange(a.len() as int, a.len() + n) =~= searched);
        assert(crate::text::occurs_at(value, searched, a.len() as int));
    }
    if crate::text::starts_with_text(value, searched) {
        assert(value =~= searched + value.skip(n));
    }
    if compares(Comparison::StartsWith, value, searched) {
        let b = choose|b: Seq<char>| value == #[trigger] (searched + b);
        assert(value.subrange(0, n) =~= searched);
    }
}

proof fn lemma_of_value(part: Part, comparison: Comparison, searched: Seq<char>, e: WebEvent, held: Option<String>)
    requires
        forall|value: Seq<char>| #[trigger] has_value(part, e, value) == (opt_text(held) == Some(value)),
    ensures
        byte_match(part, comparison, searched, e) == (held is Some && compares(
            comparison,
            held.unwrap()@,
            searched,
        )),
{
    if held is Some {
        assert(has_value(part, e, held.unwrap()@));
    }
}

/// A condition without parts holds of an event exactly where the part of the request that it is
/// on has a value that compares as it asks.
proof fn lemma_leaf_means(c: DefensiveCondition, e: WebEvent)
    requires
        is_leaf(c),
        can_be_asked(c, e),
    ensures
        byte_match(part_of(c), comparison_of(c), leaf_value(c), e) == holds(c, e),
{
    lemma_own_names();
    let (part, comparison, searched) = (part_of(c), comparison_of(c), leaf_value(c));
    match c {
        DefensiveCondition::UriEquals { .. } => lemma_of_value(part, comparison, searched, e, e.uri_path),
        DefensiveCondition::UriContains { .. } => {
            lemma_of_value(part, comparison, searched, e, e.uri_path);
            lemma_compares(e.uri_path.unwrap()@, searched);
        },
        DefensiveCondition::UriStartsWith { .. } => {
            lemma_of_value(part, comparison, searched, e, e.uri_path);
            lemma_compares(e.uri_path.unwrap()@, searched);
        },
        DefensiveCondition::QueryEquals { .. } => lemma_of_value(part, comparison, searched, e, e.uri_query),
        DefensiveCondition::QueryContains { .. } => {
            lemma_of_value(part, comparison, searched, e, e.uri_query);
            lemma_compares(e.uri_query.unwrap()@, searched);
        },
        DefensiveCondition::MethodEquals { .. } => lemma_of_value(part, comparison, searched, e, e.method),
        DefensiveCondition::HostEquals { .. } => lemma_of_value(part, comparison, searched, e, e.host),
        DefensiveCondition::Ja3Equals { .. } => lemma_of_value(part, comparison, searched, e, e.ja3),
        DefensiveCondition::Ja4Equals { .. } => lemma_of_value(part, comparison, searched, e, e.ja4),
        DefensiveCondition::UserAgentEquals { .. } => lemma_of_value(part, comparison, searched, e, e.user_agent),
        DefensiveCondition::UserAgentContains { .. } => {
            lemma_of_value(part, comparison, searched, e, e.user_agent);
            lemma_compares(e.user_agent.unwrap()@, searched);
        },
        DefensiveCondition::HeaderEquals { name, value } => {
            lemma_header_values(name@, e);
            if holds(c, e) {
                assert(has_header(e, name@, value@));
                assert(has_value(part, e, value@));
            }
            if byte_match(part, comparison, searched, e) {
                assert(has_header(e, name@, value@));
            }
        },
        DefensiveCondition::HeaderContains { name, value } => {
            lemma_header_values(name@, e);
            if holds(c, e) {
                let i = choose|i: int|
                    0 <= i < e.headers@.len() && crate::condition::named(
                        #[trigger] e.headers@[i],
                        name@,
                    ) && crate::text::contains_text(e.headers@[i].value@, value@);
                let found = e.headers@[i].value@;
                lemma_compares(found, value@);
                assert(has_header(e, name@, found));
                assert(has_value(part, e, found));
            }
            if byte_match(part, comparison, searched, e) {
                let found = choose|found: Seq<char>| #[trigger]
                    has_value(part, e, found) && compares(comparison, found, searched);
                lemma_compares(found, value@);
                assert(has_header(e, name@, found));
                let i = choose|i: int|
                    0 <= i < e.headers@.len() && lower((#[trigger] e.headers@[i]).name@) == lower(
                        name@,
                    ) && e.headers@[i].value@ == found;
                assert(crate::condition::named(e.headers@[i], name@));
            }
        },
        _ => {},
    }
}

/// The values of a header of an event, by its name in small letters.
proof fn lemma_header_values(name: Seq<char>, e: WebEvent)
    requires
        headers_agree(e) || !(lower(name) == "host"@ || lower(name) == "user-agent"@),
    ensures
        forall|value: Seq<char>| #[trigger]
            has_value(Part::Header(lower(name)), e, value) == has_header(e, name, value),
{
    lemma_lower_again(name);
    lemma_own_names();
    assert forall|value: Seq<char>| #[trigger]
        has_value(Part::Header(lower(name)), e, value) == has_header(e, name, value) by {
        lemma_same_header(e, lower(name), name, value);
        if lower(name) == "host"@ {
            lemma_same_header(e, "host"@, name, value);
            assert(has_header(e, "host"@, value) == (opt_text(e.host) == Some(value)));
        } else if lower(name) == "user-agent"@ {
            lemma_same_header(e, "user-agent"@, name, value);
            assert(has_header(e, "host"@, value) == (opt_text(e.host) == Some(value)));
        }
    }
}

proof fn lemma_same_header(e: WebEvent, a: Seq<char>, b: Seq<char>, value: Seq<char>)
    requires
        lower(a) == lower(b),
    ensures
        has_header(e, a, value) == has_header(e, b, value),
{
    if has_header(e, a, value) {
        let i = choose|i: int|
            0 <= i < e.headers@.len() && lower((#[trigger] e.headers@[i]).name@) == lower(a)
                && e.headers@[i].value@ == value;
        assert(lower(e.headers@[i].name@) == lower(b));
    }
    if has_header(e, b, value) {
        let i = choose|i: int|
            0 <= i < e.headers@.len() && lower((#[trigger] e.headers@[i]).name@) == lower(b)
                && e.headers@[i].value@ == value;
        assert(lower(e.headers@[i].name@) == lower(a));
    }
}

/// The value of the only field of an object, where that is its name.
pub open spec fn only(j: JsonModel, name: Seq<char>) -> Option<JsonModel> {
    match j {
        JsonModel::Object(fields) => if fields.len() == 1 && fields[0].0 == name {
            Some(fields[0].1)
        } else {
            None
        },
        _ => None,
    }
}

/// The part of a request that AWS WAF is told to compare.
pub open spec fn aws_part(field: JsonModel) -> Option<Part> {
    if only(field, "UriPath"@) == Some(empty_object()) {
        Some(Part::Path)
    } else if only(field, "QueryString"@) == Some(empty_object()) {
        Some(Part::Query)
    } else if only(field, "Method"@) == Some(empty_object()) {
        Some(Part::Method)
    } else if only(field, "JA3Fingerprint"@) is Some {
        if only(only(field, "JA3Fingerprint"@).unwrap(), "FallbackBehavior"@) == Some(
            JsonModel::Text("NO_MATCH"@),
        ) {
            Some(Part::Ja3)
        } else {
            None
        }
    } else if only(field, "JA4Fingerprint"@) is Some {
        if only(only(field, "JA4Fingerprint"@).unwrap(), "FallbackBehavior"@) == Some(
            JsonModel::Text("NO_MATCH"@),
        ) {
            Some(Part::Ja4)
        } else {
            None
        }
    } else {
        match only(field, "SingleHeader"@) {
            Some(header) => match only(header, "Name"@) {
                Some(JsonModel::Text(name)) => Some(Part::Header(name)),
                _ => None,
            },
            None => None,
        }
    }
}

pub open spec fn comparison_named(name: Seq<char>) -> Option<Comparison> {
    if name == "EXACTLY"@ {
        Some(Comparison::Exactly)
    } else if name == "CONTAINS"@ {
        Some(Comparison::Contains)
    } else if name == "STARTS_WITH"@ {
        Some(Comparison::StartsWith)
    } else {
        None
    }
}

/// The transformation of a byte match that changes nothing.
pub open spec fn no_transformation() -> JsonModel {
    JsonModel::List(
        seq![
            JsonModel::Object(
                seq![
                    ("Priority"@, JsonModel::Number(seq!['0'])),
                    ("Type"@, JsonModel::Text("NONE"@)),
                ],
            ),
        ],
    )
}

/// Whether a byte match of AWS WAF selects an event.
pub open spec fn aws_byte_match(j: JsonModel, e: WebEvent) -> bool {
    match (
        field_of(j, "FieldToMatch"@),
        field_of(j, "PositionalConstraint"@),
        field_of(j, "SearchString"@),
    ) {
        (
            Some(field),
            Some(JsonModel::Text(constraint)),
            Some(JsonModel::Text(searched)),
        ) => field_of(j, "TextTransformations"@) == Some(no_transformation())
            && aws_part(field) is Some && comparison_named(constraint) is Some && byte_match(
            aws_part(field).unwrap(),
            comparison_named(constraint).unwrap(),
            searched,
            e,
        ),
        _ => false,
    }
}

/// Whether a statement of AWS WAF selects an event: an `AndStatement` where there are statements
/// in it and all do, an `OrStatement` where one does, a `NotStatement` where the one in it does
/// not, and a `ByteMatchStatement` by its field, its constraint and its searched text.
pub open spec fn aws_selects(j: JsonModel, e: WebEvent) -> bool
    decreases j,
{
    match j {
        JsonModel::Object(fields) => if fields.len() != 1 {
            false
        } else {
            aws_named_selects(fields[0], e)
        },
        _ => false,
    }
}

pub open spec fn aws_named_selects(field: (Seq<char>, JsonModel), e: WebEvent) -> bool
    decreases field,
{
    if field.0 == "ByteMatchStatement"@ {
        aws_byte_match(field.1, e)
    } else {
        match field.1 {
            JsonModel::Object(inner) => if inner.len() != 1 {
                false
            } else if field.0 == "NotStatement"@ && inner[0].0 == "Statement"@ {
                aws_inner_selects(inner[0], e, Joined::Not)
            } else if field.0 == "AndStatement"@ && inner[0].0 == "Statements"@ {
                aws_inner_selects(inner[0], e, Joined::And)
            } else if field.0 == "OrStatement"@ && inner[0].0 == "Statements"@ {
                aws_inner_selects(inner[0], e, Joined::Or)
            } else {
                false
            },
            _ => false,
        }
    }
}

pub enum Joined {
    And,
    Or,
    Not,
}

pub open spec fn aws_inner_selects(field: (Seq<char>, JsonModel), e: WebEvent, joined: Joined) -> bool
    decreases field,
{
    match joined {
        Joined::Not => !aws_selects(field.1, e),
        Joined::And => match field.1 {
            JsonModel::List(items) => items.len() > 0 && forall|i: int|
                0 <= i < items.len() ==> aws_selects(#[trigger] items[i], e),
            _ => false,
        },
        Joined::Or => match field.1 {
            JsonModel::List(items) => exists|i: int|
                0 <= i < items.len() && aws_selects(#[trigger] items[i], e),
            _ => false,
        },
    }
}

proof fn lemma_aws_models(conditions: Vec<DefensiveCondition>, n: nat)
    requires
        n <= conditions@.len(),
    ensures
        aws_models(conditions, n).len() == n,
        forall|i: int|
            0 <= i < n ==> #[trigger] aws_models(conditions, n)[i] == aws_model(conditions@[i]),
    decreases n,
{
    if n > 0 {
        lemma_aws_models(conditions, (n - 1) as nat);
    }
}

proof fn lemma_aws_part(c: DefensiveCondition)
    requires
        is_leaf(c),
    ensures
        aws_part(aws_field(c)) == Some(part_of(c)),
        comparison_named(leaf_constraint(c)) == Some(comparison_of(c)),
{
    reveal_strlit("UriPath");
    reveal_strlit("QueryString");
    reveal_strlit("Method");
    reveal_strlit("SingleHeader");
    reveal_strlit("JA3Fingerprint");
    reveal_strlit("JA4Fingerprint");
    reveal_strlit("EXACTLY");
    reveal_strlit("CONTAINS");
    reveal_strlit("STARTS_WITH");
    assert("JA3Fingerprint"@[2] != "JA4Fingerprint"@[2]);
    assert("UriPath"@.len() == 7 && "QueryString"@.len() == 11 && "Method"@.len() == 6
        && "SingleHeader"@.len() == 12 && "JA3Fingerprint"@.len() == 14
        && "JA4Fingerprint"@.len() == 14);
    assert("EXACTLY"@.len() == 7 && "CONTAINS"@.len() == 8 && "STARTS_WITH"@.len() == 11);
}

proof fn lemma_aws_leaf(c: DefensiveCondition, e: WebEvent)
    requires
        is_leaf(c),
        can_be_asked(c, e),
    ensures
        aws_selects(aws_model(c), e) == holds(c, e),
{
    let inner = aws_model(c)->Object_0[0].1;
    let fields = inner->Object_0;
    reveal_strlit("SearchString");
    reveal_strlit("FieldToMatch");
    reveal_strlit("TextTransformations");
    reveal_strlit("PositionalConstraint");
    assert("SearchString"@[0] != "FieldToMatch"@[0]);
    assert("SearchString"@.len() == 12 && "TextTransformations"@.len() == 19
        && "PositionalConstraint"@.len() == 20);
    assert(fields.skip(1)[0] == fields[1]);
    assert(fields.skip(1).skip(1)[0] == fields[2]);
    assert(fields.skip(1).skip(1).skip(1)[0] == fields[3]);
    reveal_with_fuel(first_field, 5);
    assert(decimal(0) =~= seq!['0']);
    assert(field_of(inner, "TextTransformations"@) == Some(no_transformation())) by {
        assert(fields[2].1->List_0[0]->Object_0 =~= no_transformation()->List_0[0]->Object_0);
        assert(fields[2].1->List_0 =~= no_transformation()->List_0);
    }
    lemma_aws_part(c);
    lemma_leaf_means(c, e);
}

/// An AWS WAF statement selects exactly the events of which the condition holds that it was
/// written for. Where the condition asks for the host or the user agent as one of the other
/// headers, that is said of events whose headers agree with what they say of these two.
pub proof fn aws_statements_select_what_is_asked(c: DefensiveCondition, e: WebEvent)
    requires
        can_be_asked(c, e),
    ensures
        aws_selects(aws_model(c), e) == holds(c, e),
    decreases c,
{
    reveal_strlit("AndStatement");
    reveal_strlit("OrStatement");
    reveal_strlit("NotStatement");
    reveal_strlit("ByteMatchStatement");
    assert("AndStatement"@[0] != "NotStatement"@[0]);
    assert("AndStatement"@.len() == 12 && "OrStatement"@.len() == 11 && "NotStatement"@.len() == 12
        && "ByteMatchStatement"@.len() == 18);
    match c {
        DefensiveCondition::And { conditions } => {
            lemma_aws_models(conditions, conditions@.len());
            let items = aws_models(conditions, conditions@.len());
            assert forall|i: int| 0 <= i < conditions@.len() implies aws_selects(
                #[trigger] items[i],
                e,
            ) == holds(conditions@[i], e) by {
                assert(decreases_to!(conditions => conditions@[i]));
                assert(!names_own_header(c) ==> !names_own_header(conditions@[i]));
                aws_statements_select_what_is_asked(conditions@[i], e);
            }
            lemma_aws_list(c, items, e, Joined::And);
            if holds(c, e) {
                assert forall|i: int| 0 <= i < items.len() implies aws_selects(
                    #[trigger] items[i],
                    e,
                ) by {
                    assert(holds(conditions@[i], e));
                }
            }
            if conditions@.len() > 0 && (forall|i: int|
                0 <= i < items.len() ==> aws_selects(#[trigger] items[i], e)) {
                assert forall|i: int| 0 <= i < conditions@.len() implies holds(
                    #[trigger] conditions@[i],
                    e,
                ) by {
                    assert(aws_selects(items[i], e));
                }
            }
        },
        DefensiveCondition::Or { conditions } => {
            lemma_aws_models(conditions, conditions@.len());
            let items = aws_models(conditions, conditions@.len());
            assert forall|i: int| 0 <= i < conditions@.len() implies aws_selects(
                #[trigger] items[i],
                e,
            ) == holds(conditions@[i], e) by {
                assert(decreases_to!(conditions => conditions@[i]));
                assert(!names_own_header(c) ==> !names_own_header(conditions@[i]));
                aws_statements_select_what_is_asked(conditions@[i], e);
            }
            lemma_aws_list(c, items, e, Joined::Or);
            if holds(c, e) {
                let i = choose|i: int|
                    0 <= i < conditions@.len() && holds(#[trigger] conditions@[i], e);
                assert(aws_selects(items[i], e));
            }
            if exists|i: int| 0 <= i < items.len() && aws_selects(#[trigger] items[i], e) {
                let i = choose|i: int| 0 <= i < items.len() && aws_selects(#[trigger] items[i], e);
                assert(holds(conditions@[i], e));
            }
        },
        DefensiveCondition::Not { condition } => {
            aws_statements_select_what_is_asked(*condition, e);
            let inner = aws_model(c)->Object_0[0];
            assert(aws_selects(aws_model(c), e) == aws_named_selects(inner, e));
            assert(aws_named_selects(inner, e) == aws_inner_selects(
                inner.1->Object_0[0],
                e,
                Joined::Not,
            ));
        },
        _ => {
            lemma_aws_leaf(c, e);
        },
    }
}

proof fn lemma_aws_list(c: DefensiveCondition, items: Seq<JsonModel>, e: WebEvent, joined: Joined)
    requires
        joined is And ==> c is And,
        joined is Or ==> c is Or,
        !(joined is Not),
        joined is And ==> items == aws_models(c->And_conditions, c->And_conditions@.len()),
        joined is Or ==> items == aws_models(c->Or_conditions, c->Or_conditions@.len()),
    ensures
        aws_selects(aws_model(c), e) == (if joined is And {
            items.len() > 0 && forall|i: int|
                0 <= i < items.len() ==> aws_selects(#[trigger] items[i], e)
        } else {
            exists|i: int| 0 <= i < items.len() && aws_selects(#[trigger] items[i], e)
        }),
{
    reveal_strlit("AndStatement");
    reveal_strlit("OrStatement");
    reveal_strlit("NotStatement");
    reveal_strlit("ByteMatchStatement");
    assert("AndStatement"@[0] != "NotStatement"@[0]);
    assert("AndStatement"@.len() == 12 && "OrStatement"@.len() == 11 && "NotStatement"@.len() == 12
        && "ByteMatchStatement"@.len() == 18);
    let inner = aws_model(c)->Object_0[0];
    assert(aws_selects(aws_model(c), e) == aws_named_selects(inner, e));
    assert(aws_named_selects(inner, e) == aws_inner_selects(inner.1->Object_0[0], e, joined));
}

/// An exported AWS rule counts exactly the requests of which the condition of the candidate
/// holds, and does nothing else.
pub proof fn aws_rules_count_what_is_asked(c: DefensiveCandidate, priority: u32, e: WebEvent)
    requires
        can_be_asked(c.conditions, e),
    ensures
        field_of(aws_rule_model(c, priority), "Action"@) == Some(
            single("Count"@, empty_object()),
        ),
        field_of(aws_rule_model(c, priority), "Statement"@) matches Some(statement) && aws_selects(
            statement,
            e,
        ) == holds(c.conditions, e),
{
    let fields = aws_rule_model(c, priority)->Object_0;
    reveal_strlit("Name");
    reveal_strlit("Priority");
    reveal_strlit("Action");
    reveal_strlit("Statement");
    assert("Name"@.len() == 4 && "Priority"@.len() == 8 && "Action"@.len() == 6
        && "Statement"@.len() == 9);
    assert(fields.skip(1)[0] == fields[1]);
    assert(fields.skip(1).skip(1)[0] == fields[2]);
    assert(fields.skip(1).skip(1).skip(1)[0] == fields[3]);
    reveal_with_fuel(first_field, 5);
    aws_statements_select_what_is_asked(c.conditions, e);
}

/// What stands behind a text at the start of another one.
pub open spec fn after(t: Seq<char>, part: Seq<char>) -> Option<Seq<char>> {
    if part.len() <= t.len() && t.take(part.len() as int) == part {
        Some(t.skip(part.len() as int))
    } else {
        None
    }
}

/// What stands behind a margin and a text.
pub open spec fn line(t: Option<Seq<char>>, pad: Seq<char>, part: Seq<char>) -> Option<Seq<char>> {
    match t {
        Some(t) => match after(t, pad) {
            Some(rest) => after(rest, part),
            None => None,
        },
        None => None,
    }
}

proof fn lemma_after(a: Seq<char>, b: Seq<char>)
    ensures
        after(a + b, a) == Some(b),
{
    assert((a + b).take(a.len() as int) =~= a);
    assert((a + b).skip(a.len() as int) =~= b);
}

proof fn lemma_not_after(t: Seq<char>, part: Seq<char>, i: int)
    requires
        0 <= i < t.len(),
        i < part.len(),
        t[i] != part[i],
    ensures
        after(t, part) is None,
{
    if after(t, part) is Some {
        assert(t.take(part.len() as int)[i] == t[i]);
    }
}

proof fn lemma_assoc(a: Seq<char>, b: Seq<char>, c: Seq<char>)
    ensures
        (a + b) + c == a + (b + c),
{
    assert((a + b) + c =~= a + (b + c));
}

/// The value of a hexadecimal digit.
pub open spec fn hex_value(c: char) -> Option<nat> {
    if '0' <= c && c <= '9' {
        Some((c as u8 - 48) as nat)
    } else if 'a' <= c && c <= 'f' {
        Some((c as u8 - 87) as nat)
    } else {
        None
    }
}

/// The character that an escape stands for, and the length of the escape behind its backslash.
pub open spec fn escape_read(t: Seq<char>) -> Option<(char, int)> {
    if t.len() == 0 {
        None
    } else if t[0] == '"' || t[0] == '\\' || t[0] == '/' {
        Some((t[0], 1))
    } else if t[0] == 'b' {
        Some(('\u{8}', 1))
    } else if t[0] == 'f' {
        Some(('\u{c}', 1))
    } else if t[0] == 'n' {
        Some(('\n', 1))
    } else if t[0] == 'r' {
        Some(('\r', 1))
    } else if t[0] == 't' {
        Some(('\t', 1))
    } else if t[0] == 'u' && t.len() >= 5 && t[1] == '0' && t[2] == '0' && hex_value(t[3]) is Some
        && hex_value(t[4]) is Some {
        Some((((hex_value(t[3]).unwrap() * 16 + hex_value(t[4]).unwrap()) as u8 as char), 5))
    } else {
        None
    }
}

/// The text up to the closing quote of a string, and what stands behind it.
pub open spec fn string_read(t: Seq<char>) -> Option<(Seq<char>, Seq<char>)>
    decreases t.len(),
{
    if t.len() == 0 {
        None
    } else if t[0] == '"' {
        Some((seq![], t.skip(1)))
    } else if t[0] == '\\' {
        match escape_read(t.skip(1)) {
            Some((c, n)) => if 0 < n < t.len() {
                match string_read(t.skip(1 + n)) {
                    Some((text, rest)) => Some((seq![c] + text, rest)),
                    None => None,
                }
            } else {
                None
            },
            None => None,
        }
    } else {
        match string_read(t.skip(1)) {
            Some((text, rest)) => Some((seq![t[0]] + text, rest)),
            None => None,
        }
    }
}

/// The text of a quoted string at the start of a text, and what stands behind it.
pub open spec fn quoted_read(t: Seq<char>) -> Option<(Seq<char>, Seq<char>)> {
    if t.len() > 0 && t[0] == '"' {
        string_read(t.skip(1))
    } else {
        None
    }
}

pub(crate) proof fn lemma_replaced_first(s: Seq<char>, f: spec_fn(char) -> Seq<char>)
    requires
        s.len() > 0,
    ensures
        replaced(s, f) == f(s[0]) + replaced(s.skip(1), f),
    decreases s.len(),
{
    let rest = s.skip(1);
    if s.len() == 1 {
        assert(s.drop_last() =~= Seq::<char>::empty());
        assert(rest =~= Seq::<char>::empty());
        assert(replaced(s.drop_last(), f) =~= Seq::<char>::empty());
        assert(replaced(s, f) =~= f(s[0]) + replaced(rest, f));
    } else {
        lemma_replaced_first(s.drop_last(), f);
        assert(s.drop_last().skip(1) =~= rest.drop_last());
        assert(replaced(s, f) =~= f(s[0]) + replaced(rest, f));
    }
}

proof fn lemma_escape_read(c: char, rest: Seq<char>)
    ensures
        ({
            let written = json_escaped(c);
            let t = written + rest;
            if written[0] == '\\' {
                escape_read(t.skip(1)) == Some((c, written.len() - 1)) && t.skip(written.len() as int)
                    == rest && written.len() >= 2
            } else {
                written == seq![c] && c != '"' && c != '\\' && t.skip(1) == rest
            }
        }),
{
    let written = json_escaped(c);
    let t = written + rest;
    assert(t.skip(written.len() as int) =~= rest);
    let u = t.skip(1);
    if written[0] == '\\' && c != '\\' {
        assert forall|i: int| 0 <= i < written.len() - 1 implies u[i] == written[i + 1] by {}
    } else if c == '\\' {
        assert(u[0] == '\\');
    }
}

proof fn lemma_string_read(s: Seq<char>, rest: Seq<char>)
    ensures
        string_read(replaced(s, |c: char| json_escaped(c)) + (seq!['"'] + rest)) == Some((s, rest)),
    decreases s.len(),
{
    let f = |c: char| json_escaped(c);
    let end = seq!['"'] + rest;
    let t = replaced(s, f) + end;
    if s.len() == 0 {
        assert(t =~= end);
        assert(end.skip(1) =~= rest);
        assert(s =~= Seq::<char>::empty());
    } else {
        let tail = s.skip(1);
        lemma_replaced_first(s, f);
        lemma_string_read(tail, rest);
        lemma_assoc(f(s[0]), replaced(tail, f), end);
        let u = replaced(tail, f) + end;
        assert(t == json_escaped(s[0]) + u);
        lemma_escape_read(s[0], u);
        assert(t[0] == json_escaped(s[0])[0]);
        assert(seq![s[0]] + tail =~= s);
    }
}

/// A quoted text is read back, whatever stands behind it.
pub proof fn quoted_texts_are_read_back(s: Seq<char>, rest: Seq<char>)
    ensures
        quoted_read(json_quoted(s) + rest) == Some((s, rest)),
{
    let inner = replaced(s, |c: char| json_escaped(c));
    let t = json_quoted(s) + rest;
    lemma_string_read(s, rest);
    assert(t[0] == '"');
    assert(t.skip(1) =~= inner + (seq!['"'] + rest));
}

/// The part of a request that a Terraform rule is told to compare, and what stands behind it.
pub open spec fn terraform_part(t: Seq<char>) -> Option<(Part, Seq<char>)> {
    if after(t, "uri_path {}"@) is Some {
        Some((Part::Path, after(t, "uri_path {}"@).unwrap()))
    } else if after(t, "query_string {}"@) is Some {
        Some((Part::Query, after(t, "query_string {}"@).unwrap()))
    } else if after(t, "method {}"@) is Some {
        Some((Part::Method, after(t, "method {}"@).unwrap()))
    } else if after(t, "ja3_fingerprint { fallback_behavior = \"NO_MATCH\" }"@) is Some {
        Some((Part::Ja3, after(t, "ja3_fingerprint { fallback_behavior = \"NO_MATCH\" }"@).unwrap()))
    } else if after(t, "ja4_fingerprint { fallback_behavior = \"NO_MATCH\" }"@) is Some {
        Some((Part::Ja4, after(t, "ja4_fingerprint { fallback_behavior = \"NO_MATCH\" }"@).unwrap()))
    } else {
        match after(t, "single_header { name = "@) {
            Some(t1) => match quoted_read(t1) {
                Some((name, t2)) => match after(t2, " }"@) {
                    Some(t3) => Some((Part::Header(name), t3)),
                    None => None,
                },
                None => None,
            },
            None => None,
        }
    }
}

/// A comparison, by its name, and what stands behind it.
pub open spec fn terraform_comparison(t: Seq<char>) -> Option<(Comparison, Seq<char>)> {
    if after(t, "EXACTLY"@) is Some {
        Some((Comparison::Exactly, after(t, "EXACTLY"@).unwrap()))
    } else if after(t, "CONTAINS"@) is Some {
        Some((Comparison::Contains, after(t, "CONTAINS"@).unwrap()))
    } else if after(t, "STARTS_WITH"@) is Some {
        Some((Comparison::StartsWith, after(t, "STARTS_WITH"@).unwrap()))
    } else {
        None
    }
}

/// Whether the byte match at the start of a text selects an event, and what stands behind it.
pub open spec fn terraform_byte_match(t: Seq<char>, pad: Seq<char>, e: WebEvent) -> Option<
    (bool, Seq<char>),
> {
    match line(Some(t), pad, "    search_string         = "@) {
        Some(t1) => match quoted_read(t1) {
            Some((searched, t2)) => match line(
                after(t2, "\n"@),
                pad,
                "    positional_constraint = \""@,
            ) {
                Some(t3) => match terraform_comparison(t3) {
                    Some((comparison, t4)) => match line(
                        line(after(t4, "\"\n"@), pad, "    field_to_match {\n"@),
                        pad,
                        "      "@,
                    ) {
                        Some(t5) => match terraform_part(t5) {
                            Some((part, t6)) => match unchanged_end(t6, pad) {
                                Some(rest) => Some(
                                    (byte_match(part, comparison, searched, e), rest),
                                ),
                                None => None,
                            },
                            None => None,
                        },
                        None => None,
                    },
                    None => None,
                },
                None => None,
            },
            None => None,
        },
        None => None,
    }
}

/// What stands behind the end of a byte match that transforms nothing.
pub open spec fn unchanged_end(t: Seq<char>, pad: Seq<char>) -> Option<Seq<char>> {
    line(
        line(
            line(
                line(
                    line(
                        line(
                            line(after(t, "\n"@), pad, "    }\n"@),
                            pad,
                            "    text_transformation {\n"@,
                        ),
                        pad,
                        "      priority = 0\n"@,
                    ),
                    pad,
                    "      type     = \"NONE\"\n"@,
                ),
                pad,
                "    }\n"@,
            ),
            pad,
            "  }\n"@,
        ),
        pad,
        "}"@,
    )
}

/// What stands behind the end of a statement with others in it.
pub open spec fn closed(t: Seq<char>, pad: Seq<char>) -> Option<Seq<char>> {
    line(line(after(t, "\n"@), pad, "  }\n"@), pad, "}"@)
}

/// What stands behind the opening of a statement that is joined by an operator.
pub open spec fn opened(t: Seq<char>, pad: Seq<char>, operator: Seq<char>) -> Option<Seq<char>> {
    match line(line(Some(t), pad, "statement {\n"@), pad, "  "@) {
        Some(t1) => match after(t1, operator) {
            Some(t2) => after(t2, " {\n"@),
            None => None,
        },
        None => None,
    }
}

/// Whether the Terraform statement at the start of a text selects an event, and what stands
/// behind it: an `and_statement` selects where there are statements in it and all do, an
/// `or_statement` where one does, a `not_statement` where the one in it does not, and a
/// `byte_match_statement` by its field, its constraint and its searched text. Each line stands
/// behind a margin. A quoted text is read as a JSON string.
pub open spec fn terraform_read(t: Seq<char>, pad: Seq<char>, e: WebEvent) -> Option<
    (bool, Seq<char>),
>
    decreases t.len(), 0nat,
{
    if opened(t, pad, "and_statement"@) is Some {
        let inner = opened(t, pad, "and_statement"@).unwrap();
        if inner.len() < t.len() {
            match terraform_list(inner, pad, e) {
                Some((all, rest)) => Some((all.len() > 0 && !all.contains(false), rest)),
                None => None,
            }
        } else {
            None
        }
    } else if opened(t, pad, "or_statement"@) is Some {
        let inner = opened(t, pad, "or_statement"@).unwrap();
        if inner.len() < t.len() {
            match terraform_list(inner, pad, e) {
                Some((all, rest)) => Some((all.contains(true), rest)),
                None => None,
            }
        } else {
            None
        }
    } else if opened(t, pad, "not_statement"@) is Some {
        let inner = opened(t, pad, "not_statement"@).unwrap();
        if inner.len() < t.len() {
            match terraform_read(inner, pad + "    "@, e) {
                Some((selects, rest)) => match closed(rest, pad) {
                    Some(end) => Some((!selects, end)),
                    None => None,
                },
                None => None,
            }
        } else {
            None
        }
    } else {
        match opened(t, pad, "byte_match_statement"@) {
            Some(inner) => terraform_byte_match(inner, pad, e),
            None => None,
        }
    }
}

/// Which of the statements in another one select an event, up to its end, and what stands behind
/// that.
pub open spec fn terraform_list(t: Seq<char>, pad: Seq<char>, e: WebEvent) -> Option<
    (Seq<bool>, Seq<char>),
>
    decreases t.len(), 1nat,
{
    if closed(t, pad) is Some {
        Some((seq![], closed(t, pad).unwrap()))
    } else {
        match terraform_read(t, pad + "    "@, e) {
            Some((first, rest)) => if closed(rest, pad) is Some {
                Some((seq![first], closed(rest, pad).unwrap()))
            } else {
                match after(rest, "\n"@) {
                    Some(next) => if next.len() < t.len() {
                        match terraform_list(next, pad, e) {
                            Some((others, end)) => Some((seq![first] + others, end)),
                            None => None,
                        }
                    } else {
                        None
                    },
                    None => None,
                }
            },
            None => None,
        }
    }
}

/// Whether a margin is made of spaces.
pub open spec fn is_margin(pad: Seq<char>) -> bool {
    forall|i: int| 0 <= i < pad.len() ==> #[trigger] pad[i] == ' '
}

proof fn lemma_deeper(pad: Seq<char>)
    requires
        is_margin(pad),
    ensures
        is_margin(pad + "    "@),
        "    "@.len() == 4,
{
    reveal_strlit("    ");
    assert forall|i: int| 0 <= i < (pad + "    "@).len() implies #[trigger] (pad + "    "@)[i]
        == ' ' by {
        if i < pad.len() {
            assert((pad + "    "@)[i] == pad[i]);
        }
    }
}

proof fn lemma_terraform_part(c: DefensiveCondition, rest: Seq<char>)
    requires
        is_leaf(c),
    ensures
        terraform_part(terraform_field(c) + rest) == Some((part_of(c), rest)),
{
    reveal_strlit("uri_path {}");
    reveal_strlit("query_string {}");
    reveal_strlit("method {}");
    reveal_strlit("ja3_fingerprint { fallback_behavior = \"NO_MATCH\" }");
    reveal_strlit("ja4_fingerprint { fallback_behavior = \"NO_MATCH\" }");
    reveal_strlit("single_header { name = ");
    let t = terraform_field(c) + rest;
    lemma_after(terraform_field(c), rest);
    match c {
        DefensiveCondition::UriEquals { .. } => {},
        DefensiveCondition::UriContains { .. } => {},
        DefensiveCondition::UriStartsWith { .. } => {},
        DefensiveCondition::QueryEquals { .. } => {
            lemma_not_after(t, "uri_path {}"@, 0);
        },
        DefensiveCondition::QueryContains { .. } => {
            lemma_not_after(t, "uri_path {}"@, 0);
        },
        DefensiveCondition::MethodEquals { .. } => {
            lemma_not_after(t, "uri_path {}"@, 0);
            lemma_not_after(t, "query_string {}"@, 0);
        },
        DefensiveCondition::Ja3Equals { .. } => {
            lemma_not_after(t, "uri_path {}"@, 0);
            lemma_not_after(t, "query_string {}"@, 0);
            lemma_not_after(t, "method {}"@, 0);
        },
        DefensiveCondition::Ja4Equals { .. } => {
            lemma_not_after(t, "uri_path {}"@, 0);
            lemma_not_after(t, "query_string {}"@, 0);
            lemma_not_after(t, "method {}"@, 0);
            lemma_not_after(t, "ja3_fingerprint { fallback_behavior = \"NO_MATCH\" }"@, 2);
        },
        DefensiveCondition::HeaderEquals { name, .. } => {
            lemma_terraform_header(lower(name@), rest);
        },
        DefensiveCondition::HeaderContains { name, .. } => {
            lemma_terraform_header(lower(name@), rest);
        },
        DefensiveCondition::HostEquals { .. } => {
            lemma_terraform_header("host"@, rest);
            lemma_plain_quoted();
            reveal_strlit("single_header { name = \"host\" }");
            reveal_strlit(" }");
            assert("single_header { name = \"host\" }"@ =~= "single_header { name = "@
                + json_quoted("host"@) + " }"@);
        },
        _ => {
            lemma_terraform_header("user-agent"@, rest);
            lemma_plain_quoted();
            reveal_strlit("single_header { name = \"user-agent\" }");
            reveal_strlit(" }");
            assert("single_header { name = \"user-agent\" }"@ =~= "single_header { name = "@
                + json_quoted("user-agent"@) + " }"@);
        },
    }
}

proof fn lemma_terraform_header(name: Seq<char>, rest: Seq<char>)
    ensures
        terraform_part("single_header { name = "@ + json_quoted(name) + " }"@ + rest) == Some(
            (Part::Header(name), rest),
        ),
{
    reveal_strlit("uri_path {}");
    reveal_strlit("query_string {}");
    reveal_strlit("method {}");
    reveal_strlit("ja3_fingerprint { fallback_behavior = \"NO_MATCH\" }");
    reveal_strlit("ja4_fingerprint { fallback_behavior = \"NO_MATCH\" }");
    reveal_strlit("single_header { name = ");
    let (a, b, c) = ("single_header { name = "@, json_quoted(name), " }"@);
    let t = a + b + c + rest;
    lemma_assoc(a + b, c, rest);
    lemma_assoc(a, b, c + rest);
    assert(t == a + (b + (c + rest)));
    assert(t[0] == a[0]);
    lemma_not_after(t, "uri_path {}"@, 0);
    lemma_not_after(t, "query_string {}"@, 0);
    lemma_not_after(t, "method {}"@, 0);
    lemma_not_after(t, "ja3_fingerprint { fallback_behavior = \"NO_MATCH\" }"@, 0);
    lemma_not_after(t, "ja4_fingerprint { fallback_behavior = \"NO_MATCH\" }"@, 0);
    lemma_after(a, b + (c + rest));
    quoted_texts_are_read_back(name, c + rest);
    lemma_after(c, rest);
}

/// A text without characters that are escaped is quoted as it is.
proof fn lemma_plain(s: Seq<char>)
    requires
        forall|i: int| 0 <= i < s.len() ==> json_escaped(#[trigger] s[i]) == seq![s[i]],
    ensures
        replaced(s, |c: char| json_escaped(c)) == s,
    decreases s.len(),
{
    if s.len() > 0 {
        let rest = s.drop_last();
        assert forall|i: int| 0 <= i < rest.len() implies json_escaped(#[trigger] rest[i])
            == seq![rest[i]] by {
            assert(rest[i] == s[i]);
        }
        lemma_plain(rest);
        assert(s[s.len() - 1] == s.last());
        assert(replaced(s, |c: char| json_escaped(c)) =~= s);
    } else {
        assert(replaced(s, |c: char| json_escaped(c)) =~= s);
    }
}

proof fn lemma_plain_quoted()
    ensures
        json_quoted("host"@) == seq!['"', 'h', 'o', 's', 't', '"'],
        json_quoted("user-agent"@) == seq![
            '"', 'u', 's', 'e', 'r', '-', 'a', 'g', 'e', 'n', 't', '"',
        ],
{
    reveal_strlit("host");
    reveal_strlit("user-agent");
    assert forall|i: int| 0 <= i < "host"@.len() implies json_escaped(#[trigger] "host"@[i])
        == seq!["host"@[i]] by {}
    assert forall|i: int| 0 <= i < "user-agent"@.len() implies json_escaped(
        #[trigger] "user-agent"@[i],
    ) == seq!["user-agent"@[i]] by {}
    lemma_plain("host"@);
    lemma_plain("user-agent"@);
    assert(json_quoted("host"@) =~= seq!['"', 'h', 'o', 's', 't', '"']);
    assert(json_quoted("user-agent"@) =~= seq![
        '"', 'u', 's', 'e', 'r', '-', 'a', 'g', 'e', 'n', 't', '"',
    ]);
}

proof fn lemma_terraform_comparison(c: DefensiveCondition, rest: Seq<char>)
    requires
        is_leaf(c),
    ensures
        terraform_comparison(leaf_constraint(c) + rest) == Some((comparison_of(c), rest)),
{
    reveal_strlit("EXACTLY");
    reveal_strlit("CONTAINS");
    reveal_strlit("STARTS_WITH");
    let t = leaf_constraint(c) + rest;
    lemma_after(leaf_constraint(c), rest);
    assert(t[0] == leaf_constraint(c)[0]);
    if !(comparison_of(c) is Exactly) {
        lemma_not_after(t, "EXACTLY"@, 0);
    }
    if comparison_of(c) is StartsWith {
        lemma_not_after(t, "CONTAINS"@, 0);
    }
}

/// A statement opens with its own operator and no other.
proof fn lemma_opened(t: Seq<char>, pad: Seq<char>, operator: Seq<char>, inner: Seq<char>)
    requires
        t == pad + ("statement {\n"@ + (pad + ("  "@ + (operator + (" {\n"@ + inner))))),
        operator == "and_statement"@ || operator == "or_statement"@ || operator == "not_statement"@
            || operator == "byte_match_statement"@,
    ensures
        opened(t, pad, operator) == Some(inner),
        inner.len() < t.len(),
        operator != "and_statement"@ ==> opened(t, pad, "and_statement"@) is None,
        operator != "or_statement"@ ==> opened(t, pad, "or_statement"@) is None,
        operator != "not_statement"@ ==> opened(t, pad, "not_statement"@) is None,
{
    reveal_strlit("and_statement");
    reveal_strlit("or_statement");
    reveal_strlit("not_statement");
    reveal_strlit("byte_match_statement");
    reveal_strlit(" {\n");
    let t5 = " {\n"@ + inner;
    let t4 = operator + t5;
    let t3 = "  "@ + t4;
    let t2 = pad + t3;
    let t1 = "statement {\n"@ + t2;
    lemma_after(pad, t1);
    lemma_after("statement {\n"@, t2);
    lemma_after(pad, t3);
    lemma_after("  "@, t4);
    lemma_after(operator, t5);
    lemma_after(" {\n"@, inner);
    assert(t4[0] == operator[0]);
    if operator != "and_statement"@ {
        lemma_not_after(t4, "and_statement"@, 0);
    }
    if operator != "or_statement"@ {
        lemma_not_after(t4, "or_statement"@, 0);
    }
    if operator != "not_statement"@ {
        lemma_not_after(t4, "not_statement"@, 0);
    }
}

/// The end of a byte match, in front of a text.
spec fn end_text(pad: Seq<char>, rest: Seq<char>) -> Seq<char> {
    "\n"@ + (pad + ("    }\n"@ + (pad + ("    text_transformation {\n"@ + (pad + (
    "      priority = 0\n"@ + (pad + ("      type     = \"NONE\"\n"@ + (pad + ("    }\n"@ + (pad + (
    "  }\n"@ + (pad + ("}"@ + rest))))))))))))))
}

/// A byte match behind its opening, in front of a text.
spec fn match_text(c: DefensiveCondition, pad: Seq<char>, rest: Seq<char>) -> Seq<char> {
    pad + ("    search_string         = "@ + (json_quoted(leaf_value(c)) + ("\n"@ + (pad + (
    "    positional_constraint = \""@ + (leaf_constraint(c) + ("\"\n"@ + (pad + (
    "    field_to_match {\n"@ + (pad + ("      "@ + (terraform_field(c) + end_text(
        pad,
        rest,
    )))))))))))))
}

proof fn lemma_unchanged_end(pad: Seq<char>, rest: Seq<char>)
    ensures
        unchanged_end(end_text(pad, rest), pad) == Some(rest),
{
    let t1 = "}"@ + rest;
    let t2 = "  }\n"@ + (pad + t1);
    let t3 = "    }\n"@ + (pad + t2);
    let t4 = "      type     = \"NONE\"\n"@ + (pad + t3);
    let t5 = "      priority = 0\n"@ + (pad + t4);
    let t6 = "    text_transformation {\n"@ + (pad + t5);
    let t7 = "    }\n"@ + (pad + t6);
    lemma_after("}"@, rest);
    lemma_after(pad, t1);
    lemma_after("  }\n"@, pad + t1);
    lemma_after(pad, t2);
    lemma_after("    }\n"@, pad + t2);
    lemma_after(pad, t3);
    lemma_after("      type     = \"NONE\"\n"@, pad + t3);
    lemma_after(pad, t4);
    lemma_after("      priority = 0\n"@, pad + t4);
    lemma_after(pad, t5);
    lemma_after("    text_transformation {\n"@, pad + t5);
    lemma_after(pad, t6);
    lemma_after("    }\n"@, pad + t6);
    lemma_after(pad, t7);
    lemma_after("\n"@, pad + t7);
}

proof fn lemma_byte_match(c: DefensiveCondition, pad: Seq<char>, e: WebEvent, rest: Seq<char>)
    requires
        is_leaf(c),
        can_be_asked(c, e),
    ensures
        terraform_byte_match(match_text(c, pad, rest), pad, e) == Some((holds(c, e), rest)),
{
    let t6 = end_text(pad, rest);
    let t5 = terraform_field(c) + t6;
    let u5 = "      "@ + t5;
    let v5 = "    field_to_match {\n"@ + (pad + u5);
    let t4 = "\"\n"@ + (pad + v5);
    let t3 = leaf_constraint(c) + t4;
    let u3 = "    positional_constraint = \""@ + t3;
    let t2 = "\n"@ + (pad + u3);
    let t1 = json_quoted(leaf_value(c)) + t2;
    let u1 = "    search_string         = "@ + t1;
    lemma_after(pad, u1);
    lemma_after("    search_string         = "@, t1);
    quoted_texts_are_read_back(leaf_value(c), t2);
    lemma_after("\n"@, pad + u3);
    lemma_after(pad, u3);
    lemma_after("    positional_constraint = \""@, t3);
    lemma_terraform_comparison(c, t4);
    lemma_after("\"\n"@, pad + v5);
    lemma_after(pad, v5);
    lemma_after("    field_to_match {\n"@, pad + u5);
    lemma_after(pad, u5);
    lemma_after("      "@, t5);
    lemma_terraform_part(c, t6);
    lemma_unchanged_end(pad, rest);
    lemma_leaf_means(c, e);
    assert(line(Some(match_text(c, pad, rest)), pad, "    search_string         = "@) == Some(t1));
    assert(line(after(t2, "\n"@), pad, "    positional_constraint = \""@) == Some(t3));
    assert(line(after(t4, "\"\n"@), pad, "    field_to_match {\n"@) == Some(pad + u5));
    assert(line(Some(pad + u5), pad, "      "@) == Some(t5));
}

/// The statement of a condition without parts, taken apart from its start.
proof fn lemma_leaf_text(c: DefensiveCondition, pad: Seq<char>, rest: Seq<char>)
    requires
        is_leaf(c),
    ensures
        terraform_text(c, pad) + rest == pad + ("statement {\n"@ + (pad + (
        "  byte_match_statement {\n"@ + match_text(c, pad, rest)))),
{
    let p0 = pad;
    let p1 = "statement {\n"@;
    let p2 = pad;
    let p3 = "  byte_match_statement {\n"@;
    let p4 = pad;
    let p5 = "    search_string         = "@;
    let p6 = json_quoted(leaf_value(c));
    let p7 = "\n"@;
    let p8 = pad;
    let p9 = "    positional_constraint = \""@;
    let p10 = leaf_constraint(c);
    let p11 = "\"\n"@;
    let p12 = pad;
    let p13 = "    field_to_match {\n"@;
    let p14 = pad;
    let p15 = "      "@;
    let p16 = terraform_field(c);
    let p17 = "\n"@;
    let p18 = pad;
    let p19 = "    }\n"@;
    let p20 = pad;
    let p21 = "    text_transformation {\n"@;
    let p22 = pad;
    let p23 = "      priority = 0\n"@;
    let p24 = pad;
    let p25 = "      type     = \"NONE\"\n"@;
    let p26 = pad;
    let p27 = "    }\n"@;
    let p28 = pad;
    let p29 = "  }\n"@;
    let p30 = pad;
    let p31 = "}"@;
    let t32 = rest;
    let t31 = p31 + t32;
    let t30 = p30 + t31;
    let t29 = p29 + t30;
    let t28 = p28 + t29;
    let t27 = p27 + t28;
    let t26 = p26 + t27;
    let t25 = p25 + t26;
    let t24 = p24 + t25;
    let t23 = p23 + t24;
    let t22 = p22 + t23;
    let t21 = p21 + t22;
    let t20 = p20 + t21;
    let t19 = p19 + t20;
    let t18 = p18 + t19;
    let t17 = p17 + t18;
    let t16 = p16 + t17;
    let t15 = p15 + t16;
    let t14 = p14 + t15;
    let t13 = p13 + t14;
    let t12 = p12 + t13;
    let t11 = p11 + t12;
    let t10 = p10 + t11;
    let t9 = p9 + t10;
    let t8 = p8 + t9;
    let t7 = p7 + t8;
    let t6 = p6 + t7;
    let t5 = p5 + t6;
    let t4 = p4 + t5;
    let t3 = p3 + t4;
    let t2 = p2 + t3;
    let t1 = p1 + t2;
    let t0 = p0 + t1;
    let l0 = p0;
    let l1 = l0 + p1;
    let l2 = l1 + p2;
    let l3 = l2 + p3;
    let l4 = l3 + p4;
    let l5 = l4 + p5;
    let l6 = l5 + p6;
    let l7 = l6 + p7;
    let l8 = l7 + p8;
    let l9 = l8 + p9;
    let l10 = l9 + p10;
    let l11 = l10 + p11;
    let l12 = l11 + p12;
    let l13 = l12 + p13;
    let l14 = l13 + p14;
    let l15 = l14 + p15;
    let l16 = l15 + p16;
    let l17 = l16 + p17;
    let l18 = l17 + p18;
    let l19 = l18 + p19;
    let l20 = l19 + p20;
    let l21 = l20 + p21;
    let l22 = l21 + p22;
    let l23 = l22 + p23;
    let l24 = l23 + p24;
    let l25 = l24 + p25;
    let l26 = l25 + p26;
    let l27 = l26 + p27;
    let l28 = l27 + p28;
    let l29 = l28 + p29;
    let l30 = l29 + p30;
    let l31 = l30 + p31;
    lemma_assoc(l30, p31, t32);
    lemma_assoc(l29, p30, t31);
    lemma_assoc(l28, p29, t30);
    lemma_assoc(l27, p28, t29);
    lemma_assoc(l26, p27, t28);
    lemma_assoc(l25, p26, t27);
    lemma_assoc(l24, p25, t26);
    lemma_assoc(l23, p24, t25);
    lemma_assoc(l22, p23, t24);
    lemma_assoc(l21, p22, t23);
    lemma_assoc(l20, p21, t22);
    lemma_assoc(l19, p20, t21);
    lemma_assoc(l18, p19, t20);
    lemma_assoc(l17, p18, t19);
    lemma_assoc(l16, p17, t18);
    lemma_assoc(l15, p16, t17);
    lemma_assoc(l14, p15, t16);
    lemma_assoc(l13, p14, t15);
    lemma_assoc(l12, p13, t14);
    lemma_assoc(l11, p12, t13);
    lemma_assoc(l10, p11, t12);
    lemma_assoc(l9, p10, t11);
    lemma_assoc(l8, p9, t10);
    lemma_assoc(l7, p8, t9);
    lemma_assoc(l6, p7, t8);
    lemma_assoc(l5, p6, t7);
    lemma_assoc(l4, p5, t6);
    lemma_assoc(l3, p4, t5);
    lemma_assoc(l2, p3, t4);
    lemma_assoc(l1, p2, t3);
    lemma_assoc(l0, p1, t2);
    assert(terraform_text(c, pad) == l31);
    assert(l31 + rest == t0);
}

proof fn lemma_terraform_leaf(c: DefensiveCondition, pad: Seq<char>, e: WebEvent, rest: Seq<char>)
    requires
        is_leaf(c),
        can_be_asked(c, e),
    ensures
        terraform_read(terraform_text(c, pad) + rest, pad, e) == Some((holds(c, e), rest)),
{
    let inner = match_text(c, pad, rest);
    lemma_leaf_text(c, pad, rest);
    reveal_strlit("  byte_match_statement {\n");
    reveal_strlit("  ");
    reveal_strlit("byte_match_statement");
    reveal_strlit(" {\n");
    assert("  byte_match_statement {\n"@ =~= "  "@ + ("byte_match_statement"@ + " {\n"@));
    lemma_assoc("  "@, "byte_match_statement"@ + " {\n"@, inner);
    lemma_assoc("byte_match_statement"@, " {\n"@, inner);
    lemma_leaf_operator();
    lemma_opened(terraform_text(c, pad) + rest, pad, "byte_match_statement"@, inner);
    lemma_byte_match(c, pad, e, rest);
}

proof fn lemma_leaf_operator()
    ensures
        "byte_match_statement"@ != "and_statement"@,
        "byte_match_statement"@ != "or_statement"@,
        "byte_match_statement"@ != "not_statement"@,
{
    reveal_strlit("and_statement");
    reveal_strlit("or_statement");
    reveal_strlit("not_statement");
    reveal_strlit("byte_match_statement");
    assert("byte_match_statement"@.len() == 20 && "and_statement"@.len() == 13
        && "or_statement"@.len() == 12 && "not_statement"@.len() == 13);
}

/// A statement with others in it, as text.
spec fn wrapped(pad: Seq<char>, operator: Seq<char>, inner: Seq<char>) -> Seq<char> {
    pad + "statement {\n"@ + pad + "  "@ + operator + " {\n"@ + inner + "\n"@ + pad + "  }\n"@ + pad
        + "}"@
}

/// What a statement with others in it is when read from its start, and that it ends.
proof fn lemma_wrapped(
    pad: Seq<char>,
    operator: Seq<char>,
    inner: Seq<char>,
    rest: Seq<char>,
) -> (end: Seq<char>)
    requires
        operator == "and_statement"@ || operator == "or_statement"@ || operator == "not_statement"@,
    ensures
        end == "\n"@ + (pad + ("  }\n"@ + (pad + ("}"@ + rest)))),
        closed(end, pad) == Some(rest),
        ({
            let t = wrapped(pad, operator, inner) + rest;
            &&& opened(t, pad, operator) == Some(inner + end)
            &&& (inner + end).len() < t.len()
            &&& operator != "and_statement"@ ==> opened(t, pad, "and_statement"@) is None
            &&& operator != "or_statement"@ ==> opened(t, pad, "or_statement"@) is None
            &&& operator != "not_statement"@ ==> opened(t, pad, "not_statement"@) is None
        }),
{
    let p0 = pad;
    let p1 = "statement {\n"@;
    let p2 = pad;
    let p3 = "  "@;
    let p4 = operator;
    let p5 = " {\n"@;
    let p6 = inner;
    let p7 = "\n"@;
    let p8 = pad;
    let p9 = "  }\n"@;
    let p10 = pad;
    let p11 = "}"@;
    let t12 = rest;
    let t11 = p11 + t12;
    let t10 = p10 + t11;
    let t9 = p9 + t10;
    let t8 = p8 + t9;
    let t7 = p7 + t8;
    let t6 = p6 + t7;
    let t5 = p5 + t6;
    let t4 = p4 + t5;
    let t3 = p3 + t4;
    let t2 = p2 + t3;
    let t1 = p1 + t2;
    let t0 = p0 + t1;
    let l0 = p0;
    let l1 = l0 + p1;
    let l2 = l1 + p2;
    let l3 = l2 + p3;
    let l4 = l3 + p4;
    let l5 = l4 + p5;
    let l6 = l5 + p6;
    let l7 = l6 + p7;
    let l8 = l7 + p8;
    let l9 = l8 + p9;
    let l10 = l9 + p10;
    let l11 = l10 + p11;
    lemma_assoc(l10, p11, t12);
    lemma_assoc(l9, p10, t11);
    lemma_assoc(l8, p9, t10);
    lemma_assoc(l7, p8, t9);
    lemma_assoc(l6, p7, t8);
    lemma_assoc(l5, p6, t7);
    lemma_assoc(l4, p5, t6);
    lemma_assoc(l3, p4, t5);
    lemma_assoc(l2, p3, t4);
    lemma_assoc(l1, p2, t3);
    lemma_assoc(l0, p1, t2);
    assert(wrapped(pad, operator, inner) == l11);
    assert(l11 + rest == t0);
    lemma_after(p0, t1);
    lemma_after(p1, t2);
    lemma_after(p2, t3);
    lemma_after(p3, t4);
    lemma_after(p4, t5);
    lemma_after(p5, t6);
    lemma_after(p6, t7);
    lemma_after(p7, t8);
    lemma_after(p8, t9);
    lemma_after(p9, t10);
    lemma_after(p10, t11);
    lemma_after(p11, t12);
    lemma_opened(t0, pad, operator, t6);
    t7
}

/// The statements of conditions from the `k`th on, a line break between each two.
spec fn parts_from(conditions: Vec<DefensiveCondition>, k: int, pad: Seq<char>) -> Seq<char>
    decreases conditions@.len() - k,
{
    if k < 0 || k >= conditions@.len() {
        seq![]
    } else if k == conditions@.len() - 1 {
        terraform_text(conditions@[k], pad)
    } else {
        terraform_text(conditions@[k], pad) + ("\n"@ + parts_from(conditions, k + 1, pad))
    }
}

proof fn lemma_parts(conditions: Vec<DefensiveCondition>, k: int, pad: Seq<char>)
    requires
        0 < k < conditions@.len(),
    ensures
        terraform_parts(conditions, conditions@.len(), pad) == terraform_parts(
            conditions,
            k as nat,
            pad,
        ) + ("\n"@ + parts_from(conditions, k, pad)),
    decreases conditions@.len() - k,
{
    let before = terraform_parts(conditions, k as nat, pad);
    let text = terraform_text(conditions@[k], pad);
    assert(terraform_parts(conditions, (k + 1) as nat, pad) == before + "\n"@ + text);
    if k == conditions@.len() - 1 {
        lemma_assoc(before, "\n"@, text);
    } else {
        lemma_parts(conditions, k + 1, pad);
        let tail = "\n"@ + parts_from(conditions, k + 1, pad);
        lemma_assoc(before + "\n"@, text, tail);
        lemma_assoc(before, "\n"@, text + tail);
    }
}

proof fn lemma_parts_from_start(conditions: Vec<DefensiveCondition>, pad: Seq<char>)
    ensures
        terraform_parts(conditions, conditions@.len(), pad) == parts_from(conditions, 0, pad),
{
    if conditions@.len() > 1 {
        lemma_parts(conditions, 1, pad);
    }
}

/// A statement starts with its margin and does not start with a line break.
proof fn lemma_start(c: DefensiveCondition, pad: Seq<char>, rest: Seq<char>)
    requires
        is_margin(pad),
        pad.len() > 0,
    ensures
        (terraform_text(c, pad) + rest).len() > pad.len(),
        forall|i: int|
            0 <= i < pad.len() ==> #[trigger] (terraform_text(c, pad) + rest)[i] == ' ',
{
    reveal_strlit("statement {\n");
    let text = terraform_text(c, pad);
    assert forall|i: int| 0 <= i < pad.len() implies #[trigger] (text + rest)[i] == ' ' by {
        lemma_starts(c, pad);
        assert((text + rest)[i] == text[i]);
        assert(text[i] == pad[i]);
    }
    lemma_starts(c, pad);
}

proof fn lemma_starts(c: DefensiveCondition, pad: Seq<char>)
    ensures
        terraform_text(c, pad).len() > pad.len(),
        forall|i: int| 0 <= i < pad.len() ==> #[trigger] terraform_text(c, pad)[i] == pad[i],
{
    reveal_strlit("statement {\n");
    let text = terraform_text(c, pad);
    assert(exists|tail: Seq<char>| text == #[trigger] ((pad + "statement {\n"@) + tail)) by {
        lemma_text_opens(c, pad);
    }
    let tail = choose|tail: Seq<char>| text == #[trigger] ((pad + "statement {\n"@) + tail);
    assert forall|i: int| 0 <= i < pad.len() implies #[trigger] text[i] == pad[i] by {}
}

proof fn lemma_text_opens(c: DefensiveCondition, pad: Seq<char>)
    ensures
        exists|tail: Seq<char>|
            terraform_text(c, pad) == #[trigger] ((pad + "statement {\n"@) + tail),
{
    let head = pad + "statement {\n"@;
    let text = terraform_text(c, pad);
    let tail = text.skip(head.len() as int);
    match c {
        DefensiveCondition::And { conditions } => {
            let inner = terraform_parts(conditions, conditions@.len(), pad + "    "@);
            lemma_wrapped_opens(pad, "and_statement"@, inner);
        },
        DefensiveCondition::Or { conditions } => {
            let inner = terraform_parts(conditions, conditions@.len(), pad + "    "@);
            lemma_wrapped_opens(pad, "or_statement"@, inner);
        },
        DefensiveCondition::Not { condition } => {
            let inner = terraform_text(*condition, pad + "    "@);
            lemma_wrapped_opens(pad, "not_statement"@, inner);
        },
        _ => {
            lemma_leaf_opens(c, pad);
        },
    }
}

proof fn lemma_wrapped_opens(pad: Seq<char>, operator: Seq<char>, inner: Seq<char>)
    ensures
        exists|tail: Seq<char>|
            wrapped(pad, operator, inner) == #[trigger] ((pad + "statement {\n"@) + tail),
{
    let head = pad + "statement {\n"@;
    let tail = pad + "  "@ + operator + " {\n"@ + inner + "\n"@ + pad + "  }\n"@ + pad + "}"@;
    assert(wrapped(pad, operator, inner) =~= head + tail);
}

proof fn lemma_leaf_opens(c: DefensiveCondition, pad: Seq<char>)
    requires
        is_leaf(c),
    ensures
        exists|tail: Seq<char>|
            terraform_text(c, pad) == #[trigger] ((pad + "statement {\n"@) + tail),
{
    let rest = Seq::<char>::empty();
    let tail = pad + ("  byte_match_statement {\n"@ + match_text(c, pad, rest));
    lemma_leaf_text(c, pad, rest);
    assert(terraform_text(c, pad) + rest =~= terraform_text(c, pad));
    lemma_assoc(pad, "statement {\n"@, tail);
    assert(terraform_text(c, pad) == (pad + "statement {\n"@) + tail);
}

/// What is behind a statement in another one tells whether that one ends there.
proof fn lemma_not_closed(pad: Seq<char>, t: Seq<char>)
    requires
        is_margin(pad),
        t.len() > pad.len() + 4,
        forall|i: int| 0 <= i < pad.len() + 4 ==> #[trigger] t[i] == ' ',
    ensures
        closed(t, pad) is None,
        closed("\n"@ + t, pad) is None,
        after("\n"@ + t, "\n"@) == Some(t),
{
    reveal_strlit("\n");
    reveal_strlit("  }\n");
    lemma_not_after(t, "\n"@, 0);
    lemma_after("\n"@, t);
    assert(t.take(pad.len() as int) =~= pad);
    let u = t.skip(pad.len() as int);
    assert(u[2] == t[pad.len() as int + 2]);
    lemma_not_after(u, "  }\n"@, 2);
}

proof fn lemma_terraform_list(
    conditions: Vec<DefensiveCondition>,
    k: int,
    pad: Seq<char>,
    e: WebEvent,
    end: Seq<char>,
    rest: Seq<char>,
)
    requires
        0 <= k < conditions@.len(),
        is_margin(pad),
        end == "\n"@ + (pad + ("  }\n"@ + (pad + ("}"@ + rest)))),
        closed(end, pad) == Some(rest),
        headers_agree(e) || forall|i: int|
            0 <= i < conditions@.len() ==> !names_own_header(#[trigger] conditions@[i]),
    ensures
        terraform_list(parts_from(conditions, k, pad + "    "@) + end, pad, e) == Some(
            (
                Seq::new((conditions@.len() - k) as nat, |i: int| holds(conditions@[k + i], e)),
                rest,
            ),
        ),
    decreases conditions, conditions@.len() - k,
{
    let deeper = pad + "    "@;
    let c = conditions@[k];
    let text = terraform_text(c, deeper);
    let t = parts_from(conditions, k, deeper) + end;
    lemma_deeper(pad);
    assert(decreases_to!(conditions => conditions@[k]));
    let wanted = Seq::new(
        (conditions@.len() - k) as nat,
        |i: int| holds(conditions@[k + i], e),
    );
    if k == conditions@.len() - 1 {
        lemma_start(c, deeper, end);
        lemma_not_closed(pad, t);
        terraform_statements_select(c, deeper, e, end);
        assert(seq![holds(c, e)] =~= wanted);
    } else {
        let others = parts_from(conditions, k + 1, deeper);
        let next = others + end;
        lemma_assoc(text, "\n"@ + others, end);
        lemma_assoc("\n"@, others, end);
        assert(t == text + ("\n"@ + next));
        lemma_start(c, deeper, "\n"@ + next);
        lemma_not_closed(pad, t);
        terraform_statements_select(c, deeper, e, "\n"@ + next);
        lemma_parts_start(conditions, k + 1, deeper, end);
        lemma_not_closed(pad, next);
        lemma_terraform_list(conditions, k + 1, pad, e, end, rest);
        reveal_strlit("\n");
        assert(next.len() < t.len());
        let tail = Seq::new(
            (conditions@.len() - (k + 1)) as nat,
            |i: int| holds(conditions@[k + 1 + i], e),
        );
        assert(seq![holds(c, e)] + tail =~= wanted);
    }
}

proof fn lemma_parts_start(
    conditions: Vec<DefensiveCondition>,
    k: int,
    pad: Seq<char>,
    end: Seq<char>,
)
    requires
        0 <= k < conditions@.len(),
        is_margin(pad),
        pad.len() > 0,
    ensures
        (parts_from(conditions, k, pad) + end).len() > pad.len(),
        forall|i: int|
            0 <= i < pad.len() ==> #[trigger] (parts_from(conditions, k, pad) + end)[i] == ' ',
{
    let c = conditions@[k];
    if k == conditions@.len() - 1 {
        lemma_start(c, pad, end);
    } else {
        let others = "\n"@ + parts_from(conditions, k + 1, pad);
        lemma_assoc(terraform_text(c, pad), others, end);
        lemma_start(c, pad, others + end);
    }
}

/// A Terraform statement selects exactly the events of which the condition holds that it was
/// written for, whatever stands behind it. Where the condition asks for the host or the user
/// agent as one of the other headers, that is said of events whose headers agree with what they
/// say of these two.
pub proof fn terraform_statements_select(
    c: DefensiveCondition,
    pad: Seq<char>,
    e: WebEvent,
    rest: Seq<char>,
)
    requires
        is_margin(pad),
        can_be_asked(c, e),
    ensures
        terraform_read(terraform_text(c, pad) + rest, pad, e) == Some((holds(c, e), rest)),
    decreases c, 0int,
{
    let deeper = pad + "    "@;
    lemma_deeper(pad);
    match c {
        DefensiveCondition::And { conditions } => {
            let inner = terraform_parts(conditions, conditions@.len(), deeper);
            assert(terraform_text(c, pad) == wrapped(pad, "and_statement"@, inner));
            let end = lemma_wrapped(pad, "and_statement"@, inner, rest);
            lemma_parts_from_start(conditions, deeper);
            if conditions@.len() == 0 {
                assert(inner + end =~= end);
            } else {
                assert forall|i: int| !names_own_header(c) && 0 <= i < conditions@.len() implies
                    !names_own_header(#[trigger] conditions@[i]) by {}
                lemma_terraform_list(conditions, 0, pad, e, end, rest);
                let all = Seq::new(conditions@.len(), |i: int| holds(conditions@[0 + i], e));
                if holds(c, e) && all.contains(false) {
                    let i = all.index_of(false);
                    assert(holds(conditions@[i], e));
                }
                if !all.contains(false) {
                    assert forall|i: int| 0 <= i < conditions@.len() implies holds(
                        #[trigger] conditions@[i],
                        e,
                    ) by {
                        assert(all[i] == holds(conditions@[i], e));
                        if !holds(conditions@[i], e) {
                            assert(all.contains(all[i]));
                        }
                    }
                }
            }
        },
        DefensiveCondition::Or { conditions } => {
            let inner = terraform_parts(conditions, conditions@.len(), deeper);
            assert(terraform_text(c, pad) == wrapped(pad, "or_statement"@, inner));
            lemma_operators_differ();
            let end = lemma_wrapped(pad, "or_statement"@, inner, rest);
            lemma_parts_from_start(conditions, deeper);
            if conditions@.len() == 0 {
                assert(inner + end =~= end);
            } else {
                assert forall|i: int| !names_own_header(c) && 0 <= i < conditions@.len() implies
                    !names_own_header(#[trigger] conditions@[i]) by {}
                lemma_terraform_list(conditions, 0, pad, e, end, rest);
                let all = Seq::new(conditions@.len(), |i: int| holds(conditions@[0 + i], e));
                if holds(c, e) {
                    let i = choose|i: int|
                        0 <= i < conditions@.len() && holds(#[trigger] conditions@[i], e);
                    assert(all[i] == true);
                    assert(all.contains(true));
                }
                if all.contains(true) {
                    let i = all.index_of(true);
                    assert(holds(conditions@[i], e));
                }
            }
        },
        DefensiveCondition::Not { condition } => {
            let inner = terraform_text(*condition, deeper);
            assert(terraform_text(c, pad) == wrapped(pad, "not_statement"@, inner));
            lemma_operators_differ();
            let end = lemma_wrapped(pad, "not_statement"@, inner, rest);
            terraform_statements_select(*condition, deeper, e, end);
        },
        _ => {
            lemma_operators_differ();
            lemma_terraform_leaf(c, pad, e, rest);
        },
    }
}

proof fn lemma_operators_differ()
    ensures
        "and_statement"@ != "or_statement"@,
        "and_statement"@ != "not_statement"@,
        "or_statement"@ != "not_statement"@,
{
    reveal_strlit("and_statement");
    reveal_strlit("or_statement");
    reveal_strlit("not_statement");
    assert("and_statement"@[0] != "or_statement"@[0]);
    assert("and_statement"@[0] != "not_statement"@[0]);
    assert("or_statement"@[0] != "not_statement"@[0]);
}

/// An exported Terraform rule counts, and what stands behind its action is a statement that
/// selects exactly the requests of which the condition of the candidate holds.
pub proof fn terraform_rules_count_what_is_asked(
    c: DefensiveCandidate,
    priority: u32,
    coverage: Seq<char>,
    e: WebEvent,
)
    requires
        can_be_asked(c.conditions, e),
    ensures
        exists|before: Seq<char>, statement: Seq<char>, end: Seq<char>|
            {
                &&& terraform_rule_text(c, priority, coverage) == #[trigger] (before
                    + "\n\n  action {\n    count {}\n  }\n\n"@ + (statement + end))
                &&& terraform_read(statement + end, seq![' ', ' '], e) == Some(
                    (holds(c.conditions, e), end),
                )
            },
{
    reveal_strlit("  ");
    let pad = seq![' ', ' '];
    assert("  "@ =~= pad);
    let statement = terraform_text(c.conditions, pad);
    let name = json_quoted(crate::export::rule_name(c.id@));
    let before =
        "# Generated by Shenron. Defensive candidate only; review before deployment.\n# CVEs: "@
        + crate::text::join_texts(crate::text::texts(c.cves@), ", "@)
        + "\n# Recommended initial action: COUNT\n# Threat coverage: "@ + coverage
        + "; other historical matches: "@ + decimal(c.evidence.other_historical_matches as nat)
        + "\n# Integrate this rule fragment into an existing aws_wafv2_web_acl.\n\nrule {\n  name     = "@
        + name + "\n  priority = "@ + decimal(priority as nat);
    let x1 =
        "\n  visibility_config {\n    cloudwatch_metrics_enabled = true\n    metric_name                = "@;
    let x3 = "\n    sampled_requests_enabled   = true\n  }\n}\n"@;
    let end = x1 + (name + x3);
    let head = before + "\n\n  action {\n    count {}\n  }\n\n"@;
    assert(terraform_rule_text(c, priority, coverage) == head + statement + x1 + name + x3);
    lemma_assoc(head + statement + x1, name, x3);
    lemma_assoc(head + statement, x1, name + x3);
    lemma_assoc(head, statement, end);
    terraform_statements_select(c.conditions, pad, e, end);
}

} // verus!
