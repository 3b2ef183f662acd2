//! Review-only exports of candidates. An export never deploys a control, and a preventive one
//! needs recorded replay evidence.

use crate::candidate::{compatibility, DefensiveCandidate};
use crate::condition::{
    is_compatibility, ossec_shape, ossec_shape_supported, status_of, values_of, Backend,
    CompatibilityReport, CompatibilityStatus, DefensiveCondition,
};
use crate::event::TelemetryProfile;
use crate::json::{
    field_models, item_models, json_quoted, quote_json, replaced, single, Json, JsonModel,
};
use crate::text::{
    ascii_lowercase, chars_of, contains, contains_text, decimal, join, join_texts, lower,
    lower_char, push_decimal, text_between, texts,
};
use vstd::prelude::*;
use vstd::string::*;

verus! {

broadcast use vstd::string::group_string_axioms;

/// What each condition without parts compares: the value, how, and which part of the request.
pub open spec fn leaf_value(c: DefensiveCondition) -> Seq<char> {
    match c {
        DefensiveCondition::UriEquals { value } => value@,
        DefensiveCondition::UriContains { value } => value@,
        DefensiveCondition::UriStartsWith { value } => value@,
        DefensiveCondition::QueryEquals { value } => value@,
        DefensiveCondition::QueryContains { value } => value@,
        DefensiveCondition::MethodEquals { value } => value@,
        DefensiveCondition::HostEquals { value } => value@,
        DefensiveCondition::HeaderEquals { value, .. } => value@,
        DefensiveCondition::HeaderContains { value, .. } => value@,
        DefensiveCondition::Ja3Equals { value } => value@,
        DefensiveCondition::Ja4Equals { value } => value@,
        DefensiveCondition::UserAgentEquals { value } => value@,
        DefensiveCondition::UserAgentContains { value } => value@,
        _ => seq![],
    }
}

pub open spec fn leaf_constraint(c: DefensiveCondition) -> Seq<char> {
    match c {
        DefensiveCondition::UriContains { .. } => "CONTAINS"@,
        DefensiveCondition::QueryContains { .. } => "CONTAINS"@,
        DefensiveCondition::HeaderContains { .. } => "CONTAINS"@,
        DefensiveCondition::UserAgentContains { .. } => "CONTAINS"@,
        DefensiveCondition::UriStartsWith { .. } => "STARTS_WITH"@,
        _ => "EXACTLY"@,
    }
}

pub open spec fn empty_object() -> JsonModel {
    JsonModel::Object(seq![])
}

/// The part of the request that AWS WAF compares.
pub open spec fn aws_field(c: DefensiveCondition) -> JsonModel {
    match c {
        DefensiveCondition::UriEquals { .. } => single("UriPath"@, empty_object()),
        DefensiveCondition::UriContains { .. } => single("UriPath"@, empty_object()),
        DefensiveCondition::UriStartsWith { .. } => single("UriPath"@, empty_object()),
        DefensiveCondition::QueryEquals { .. } => single("QueryString"@, empty_object()),
        DefensiveCondition::QueryContains { .. } => single("QueryString"@, empty_object()),
        DefensiveCondition::MethodEquals { .. } => single("Method"@, empty_object()),
        DefensiveCondition::HostEquals { .. } => single(
            "SingleHeader"@,
            single("Name"@, JsonModel::Text("host"@)),
        ),
        DefensiveCondition::HeaderEquals { name, .. } => single(
            "SingleHeader"@,
            single("Name"@, JsonModel::Text(lower(name@))),
        ),
        DefensiveCondition::HeaderContains { name, .. } => single(
            "SingleHeader"@,
            single("Name"@, JsonModel::Text(lower(name@))),
        ),
        DefensiveCondition::Ja3Equals { .. } => single(
            "JA3Fingerprint"@,
            single("FallbackBehavior"@, JsonModel::Text("NO_MATCH"@)),
        ),
        DefensiveCondition::Ja4Equals { .. } => single(
            "JA4Fingerprint"@,
            single("FallbackBehavior"@, JsonModel::Text("NO_MATCH"@)),
        ),
        _ => single("SingleHeader"@, single("Name"@, JsonModel::Text("user-agent"@))),
    }
}

/// The AWS WAF statement of a condition.
pub open spec fn aws_model(c: DefensiveCondition) -> JsonModel
    decreases c, 0nat,
{
    match c {
        DefensiveCondition::And { conditions } => single(
            "AndStatement"@,
            single(
                "Statements"@,
                JsonModel::List(aws_models(conditions, conditions@.len())),
            ),
        ),
        DefensiveCondition::Or { conditions } => single(
            "OrStatement"@,
            single(
                "Statements"@,
                JsonModel::List(aws_models(conditions, conditions@.len())),
            ),
        ),
        DefensiveCondition::Not { condition } => single(
            "NotStatement"@,
            single("Statement"@, aws_model(*condition)),
        ),
        _ => single(
            "ByteMatchStatement"@,
            JsonModel::Object(
                seq![
                    ("SearchString"@, JsonModel::Text(leaf_value(c))),
                    ("FieldToMatch"@, aws_field(c)),
                    (
                        "TextTransformations"@,
                        JsonModel::List(
                            seq![
                                JsonModel::Object(
                                    seq![
                                        ("Priority"@, JsonModel::Number(decimal(0))),
                                        ("Type"@, JsonModel::Text("NONE"@)),
                                    ],
                                ),
                            ],
                        ),
                    ),
                    ("PositionalConstraint"@, JsonModel::Text(leaf_constraint(c))),
                ],
            ),
        ),
    }
}

/// The AWS WAF statements of the first `n` conditions.
pub open spec fn aws_models(conditions: Vec<DefensiveCondition>, n: nat) -> Seq<JsonModel>
    decreases conditions, n,
{
    if n == 0 || n > conditions@.len() {
        seq![]
    } else {
        aws_models(conditions, (n - 1) as nat).push(aws_model(conditions@[n - 1]))
    }
}

fn constraint_of(c: &DefensiveCondition) -> (r: &'static str)
    ensures
        r@ == leaf_constraint(*c),
{
    match c {
        DefensiveCondition::UriContains { .. } => "CONTAINS",
        DefensiveCondition::QueryContains { .. } => "CONTAINS",
        DefensiveCondition::HeaderContains { .. } => "CONTAINS",
        DefensiveCondition::UserAgentContains { .. } => "CONTAINS",
        DefensiveCondition::UriStartsWith { .. } => "STARTS_WITH",
        _ => "EXACTLY",
    }
}

fn value_of(c: &DefensiveCondition) -> (r: String)
    ensures
        r@ == leaf_value(*c),
{
    match c {
        DefensiveCondition::UriEquals { value } => value.clone(),
        DefensiveCondition::UriContains { value } => value.clone(),
        DefensiveCondition::UriStartsWith { value } => value.clone(),
        DefensiveCondition::QueryEquals { value } => value.clone(),
        DefensiveCondition::QueryContains { value } => value.clone(),
        DefensiveCondition::MethodEquals { value } => value.clone(),
        DefensiveCondition::HostEquals { value } => value.clone(),
        DefensiveCondition::HeaderEquals { value, .. } => value.clone(),
        DefensiveCondition::HeaderContains { value, .. } => value.clone(),
        DefensiveCondition::Ja3Equals { value } => value.clone(),
        DefensiveCondition::Ja4Equals { value } => value.clone(),
        DefensiveCondition::UserAgentEquals { value } => value.clone(),
        DefensiveCondition::UserAgentContains { value } => value.clone(),
        _ => String::new(),
    }
}

fn empty_json() -> (r: Json)
    ensures
        r@ == empty_object(),
{
    let fields: Vec<(String, Json)> = Vec::new();
    assert(field_models(fields@) =~= Seq::<(Seq<char>, JsonModel)>::empty());
    Json::object(fields)
}

fn header_json(name: &str) -> (r: Json)
    ensures
        r@ == single("SingleHeader"@, single("Name"@, JsonModel::Text(name@))),
{
    Json::wrap("SingleHeader", Json::wrap("Name", Json::text(name)))
}

fn field_json(c: &DefensiveCondition) -> (r: Json)
    ensures
        r@ == aws_field(*c),
{
    match c {
        DefensiveCondition::UriEquals { .. } => Json::wrap("UriPath", empty_json()),
        DefensiveCondition::UriContains { .. } => Json::wrap("UriPath", empty_json()),
        DefensiveCondition::UriStartsWith { .. } => Json::wrap("UriPath", empty_json()),
        DefensiveCondition::QueryEquals { .. } => Json::wrap("QueryString", empty_json()),
        DefensiveCondition::QueryContains { .. } => Json::wrap("QueryString", empty_json()),
        DefensiveCondition::MethodEquals { .. } => Json::wrap("Method", empty_json()),
        DefensiveCondition::HostEquals { .. } => header_json("host"),
        DefensiveCondition::HeaderEquals { name, .. } => header_json(
            ascii_lowercase(name.as_str()).as_str(),
        ),
        DefensiveCondition::HeaderContains { name, .. } => header_json(
            ascii_lowercase(name.as_str()).as_str(),
        ),
        DefensiveCondition::Ja3Equals { .. } => Json::wrap(
            "JA3Fingerprint",
            Json::wrap("FallbackBehavior", Json::text("NO_MATCH")),
        ),
        DefensiveCondition::Ja4Equals { .. } => Json::wrap(
            "JA4Fingerprint",
            Json::wrap("FallbackBehavior", Json::text("NO_MATCH")),
        ),
        _ => header_json("user-agent"),
    }
}

fn leaf_json(c: &DefensiveCondition) -> (r: Json)
    requires
        !(c is And),
        !(c is Or),
        !(c is Not),
    ensures
        r@ == aws_model(*c),
{
    let mut transformation: Vec<(String, Json)> = Vec::new();
    transformation.push(("Priority".to_owned(), Json::number(0)));
    transformation.push(("Type".to_owned(), Json::text("NONE")));
    assert(field_models(transformation@) =~= seq![
        ("Priority"@, JsonModel::Number(decimal(0))),
        ("Type"@, JsonModel::Text("NONE"@)),
    ]);
    let mut transformations: Vec<Json> = Vec::new();
    transformations.push(Json::object(transformation));
    assert(item_models(transformations@) =~= seq![
        JsonModel::Object(
            seq![
                ("Priority"@, JsonModel::Number(decimal(0))),
                ("Type"@, JsonModel::Text("NONE"@)),
            ],
        ),
    ]);
    let mut fields: Vec<(String, Json)> = Vec::new();
    fields.push(("SearchString".to_owned(), Json::text(value_of(c).as_str())));
    fields.push(("FieldToMatch".to_owned(), field_json(c)));
    fields.push(("TextTransformations".to_owned(), Json::list(transformations)));
    fields.push(("PositionalConstraint".to_owned(), Json::text(constraint_of(c))));
    let r = Json::wrap("ByteMatchStatement", Json::object(fields));
    assert(field_models(fields@) =~= aws_model(*c)->Object_0[0].1->Object_0);
    r
}

fn children_json(conditions: &Vec<DefensiveCondition>) -> (r: Json)
    ensures
        r@ == JsonModel::List(aws_models(*conditions, conditions@.len())),
    decreases conditions, 0nat,
{
    let mut items: Vec<Json> = Vec::new();
    let mut i: usize = 0;
    assert(item_models(items@) =~= aws_models(*conditions, 0));
    #[verifier::loop_isolation(false)]
    while i < conditions.len()
        invariant
            i <= conditions@.len(),
            item_models(items@) == aws_models(*conditions, i as nat),
        decreases conditions.len() - i,
    {
        assert(decreases_to!(*conditions => conditions@[i as int]));
        let ghost before = items@;
        items.push(aws_statement(&conditions[i]));
        assert(item_models(items@) =~= item_models(before).push(aws_model(conditions@[i as int])));
        i = i + 1;
    }
    Json::list(items)
}

/// The AWS WAF statement of a condition.
pub fn aws_statement(c: &DefensiveCondition) -> (r: Json)
    ensures
        r@ == aws_model(*c),
    decreases c, 1nat,
{
    match c {
        DefensiveCondition::And { conditions } => Json::wrap(
            "AndStatement",
            Json::wrap("Statements", children_json(conditions)),
        ),
        DefensiveCondition::Or { conditions } => Json::wrap(
            "OrStatement",
            Json::wrap("Statements", children_json(conditions)),
        ),
        DefensiveCondition::Not { condition } => Json::wrap(
            "NotStatement",
            Json::wrap("Statement", aws_statement(condition)),
        ),
        _ => leaf_json(c),
    }
}

pub open spec fn is_name_char(c: char) -> bool {
    ('a' <= c && c <= 'z') || ('0' <= c && c <= '9') || c == '-'
}

/// A character of a rule name: a small letter, a digit or a hyphen.
pub open spec fn name_char(c: char) -> char {
    if is_name_char(lower_char(c)) {
        lower_char(c)
    } else {
        '-'
    }
}

/// A text without hyphens at its ends.
pub open spec fn without_hyphens(s: Seq<char>) -> Seq<char>
    decreases s.len(),
{
    if s.len() > 0 && s[0] == '-' {
        without_hyphens(s.skip(1))
    } else if s.len() > 0 && s.last() == '-' {
        without_hyphens(s.drop_last())
    } else {
        s
    }
}

/// The rule name of an identifier: at most 128 name characters, no hyphens at the ends.
pub open spec fn rule_name(id: Seq<char>) -> Seq<char> {
    let named = id.map_values(|c: char| name_char(c));
    without_hyphens(
        named.take(
            if named.len() < 128 {
                named.len() as int
            } else {
                128
            },
        ),
    )
}

pub fn safe_name(value: &str) -> (r: String)
    ensures
        r@ == rule_name(value@),
{
    let chars = chars_of(value);
    let limit: usize = if chars.len() < 128 {
        chars.len()
    } else {
        128
    };
    let ghost named = value@.map_values(|c: char| name_char(c));
    let mut kept: Vec<char> = Vec::new();
    let mut i: usize = 0;
    while i < limit
        invariant
            chars@ == value@,
            named == value@.map_values(|c: char| name_char(c)),
            i <= limit <= chars@.len(),
            kept@ == named.take(i as int),
        decreases limit - i,
    {
        let c = crate::text::lower_ascii_char(chars[i]);
        let allowed = ('a' <= c && c <= 'z') || ('0' <= c && c <= '9') || c == '-';
        kept.push(
            if allowed {
                c
            } else {
                '-'
            },
        );
        assert(named.take(i + 1) =~= named.take(i as int).push(named[i as int]));
        i = i + 1;
    }
    let mut from: usize = 0;
    let mut to: usize = kept.len();
    assert(kept@.subrange(0, kept@.len() as int) =~= kept@);
    while from < to && (kept[from] == '-' || kept[to - 1] == '-')
        invariant
            from <= to <= kept@.len(),
            without_hyphens(kept@.subrange(from as int, to as int)) == without_hyphens(kept@),
        decreases to - from,
    {
        let ghost now = kept@.subrange(from as int, to as int);
        if kept[from] == '-' {
            assert(now[0] == '-');
            assert(now.skip(1) =~= kept@.subrange(from + 1, to as int));
            from = from + 1;
        } else {
            assert(now[0] != '-');
            assert(now.last() == '-');
            assert(now.drop_last() =~= kept@.subrange(from as int, to - 1));
            to = to - 1;
        }
    }
    proof {
        let now = kept@.subrange(from as int, to as int);
        if from < to {
            assert(now[0] == kept@[from as int]);
            assert(now.last() == kept@[to - 1]);
        }
        assert(without_hyphens(now) == now);
    }
    text_between(&kept, from, to)
}

/// A rule name has only name characters, at most 128 of them, and no hyphen at either end.
pub proof fn rule_names_are_safe(id: Seq<char>)
    ensures
        rule_name(id).len() <= 128,
        forall|i: int| 0 <= i < rule_name(id).len() ==> is_name_char(#[trigger] rule_name(id)[i]),
        rule_name(id).len() > 0 ==> rule_name(id)[0] != '-' && rule_name(id).last() != '-',
{
    let named = id.map_values(|c: char| name_char(c));
    let kept = named.take(
        if named.len() < 128 {
            named.len() as int
        } else {
            128
        },
    );
    assert forall|i: int| 0 <= i < kept.len() implies is_name_char(#[trigger] kept[i]) by {
        assert(kept[i] == name_char(id[i]));
    }
    lemma_without_hyphens(kept);
}

proof fn lemma_without_hyphens(s: Seq<char>)
    requires
        forall|i: int| 0 <= i < s.len() ==> is_name_char(#[trigger] s[i]),
    ensures
        without_hyphens(s).len() <= s.len(),
        forall|i: int|
            0 <= i < without_hyphens(s).len() ==> is_name_char(#[trigger] without_hyphens(s)[i]),
        without_hyphens(s).len() > 0 ==> without_hyphens(s)[0] != '-' && without_hyphens(s).last()
            != '-',
    decreases s.len(),
{
    if s.len() > 0 && s[0] == '-' {
        assert forall|i: int| 0 <= i < s.skip(1).len() implies is_name_char(#[trigger] s.skip(1)[i]) by {
            assert(s.skip(1)[i] == s[i + 1]);
        }
        lemma_without_hyphens(s.skip(1));
    } else if s.len() > 0 && s.last() == '-' {
        assert forall|i: int| 0 <= i < s.drop_last().len() implies is_name_char(
            #[trigger] s.drop_last()[i],
        ) by {
            assert(s.drop_last()[i] == s[i]);
        }
        lemma_without_hyphens(s.drop_last());
    }
}

pub open spec fn aws_rule_model(c: DefensiveCandidate, priority: u32) -> JsonModel {
    JsonModel::Object(
        seq![
            ("Name"@, JsonModel::Text(rule_name(c.id@))),
            ("Priority"@, JsonModel::Number(decimal(priority as nat))),
            ("Action"@, single("Count"@, empty_object())),
            ("Statement"@, aws_model(c.conditions)),
            (
                "VisibilityConfig"@,
                JsonModel::Object(
                    seq![
                        ("SampledRequestsEnabled"@, JsonModel::Bool(true)),
                        ("CloudWatchMetricsEnabled"@, JsonModel::Bool(true)),
                        ("MetricName"@, JsonModel::Text(rule_name(c.id@))),
                    ],
                ),
            ),
        ],
    )
}

/// The AWS WAF rule of a candidate. Its action is to count.
pub fn aws_rule(c: &DefensiveCandidate, priority: u32) -> (r: Json)
    ensures
        r@ == aws_rule_model(*c, priority),
{
    let name = safe_name(c.id.as_str());
    let mut visibility: Vec<(String, Json)> = Vec::new();
    visibility.push(("SampledRequestsEnabled".to_owned(), Json::Bool(true)));
    visibility.push(("CloudWatchMetricsEnabled".to_owned(), Json::Bool(true)));
    visibility.push(("MetricName".to_owned(), Json::text(name.as_str())));
    assert(field_models(visibility@) =~= seq![
        ("SampledRequestsEnabled"@, JsonModel::Bool(true)),
        ("CloudWatchMetricsEnabled"@, JsonModel::Bool(true)),
        ("MetricName"@, JsonModel::Text(rule_name(c.id@))),
    ]);
    let mut fields: Vec<(String, Json)> = Vec::new();
    fields.push(("Name".to_owned(), Json::text(name.as_str())));
    fields.push(("Priority".to_owned(), Json::number(priority as u64)));
    fields.push(("Action".to_owned(), Json::wrap("Count", empty_json())));
    fields.push(("Statement".to_owned(), aws_statement(&c.conditions)));
    fields.push(("VisibilityConfig".to_owned(), Json::object(visibility)));
    assert(field_models(fields@) =~= aws_rule_model(*c, priority)->Object_0);
    Json::object(fields)
}

/// The part of the request that the Terraform statement compares.
pub open spec fn terraform_field(c: DefensiveCondition) -> Seq<char> {
    match c {
        DefensiveCondition::UriEquals { .. } => "uri_path {}"@,
        DefensiveCondition::UriContains { .. } => "uri_path {}"@,
        DefensiveCondition::UriStartsWith { .. } => "uri_path {}"@,
        DefensiveCondition::QueryEquals { .. } => "query_string {}"@,
        DefensiveCondition::QueryContains { .. } => "query_string {}"@,
        DefensiveCondition::MethodEquals { .. } => "method {}"@,
        DefensiveCondition::HostEquals { .. } => "single_header { name = \"host\" }"@,
        DefensiveCondition::HeaderEquals { name, .. } => "single_header { name = "@ + json_quoted(
            lower(name@),
        ) + " }"@,
        DefensiveCondition::HeaderContains { name, .. } => "single_header { name = "@
            + json_quoted(lower(name@)) + " }"@,
        DefensiveCondition::Ja3Equals { .. } =>
            "ja3_fingerprint { fallback_behavior = \"NO_MATCH\" }"@,
        DefensiveCondition::Ja4Equals { .. } =>
            "ja4_fingerprint { fallback_behavior = \"NO_MATCH\" }"@,
        _ => "single_header { name = \"user-agent\" }"@,
    }
}

/// The Terraform statement of a condition, each line behind a margin.
pub open spec fn terraform_text(c: DefensiveCondition, pad: Seq<char>) -> Seq<char>
    decreases c, 0nat,
{
    match c {
        DefensiveCondition::And { conditions } => pad + "statement {\n"@ + pad + "  "@
            + "and_statement"@ + " {\n"@ + terraform_parts(
            conditions,
            conditions@.len(),
            pad + "    "@,
        ) + "\n"@ + pad + "  }\n"@ + pad + "}"@,
        DefensiveCondition::Or { conditions } => pad + "statement {\n"@ + pad + "  "@
            + "or_statement"@ + " {\n"@ + terraform_parts(
            conditions,
            conditions@.len(),
            pad + "    "@,
        ) + "\n"@ + pad + "  }\n"@ + pad + "}"@,
        DefensiveCondition::Not { condition } => pad + "statement {\n"@ + pad + "  "@
            + "not_statement"@ + " {\n"@ + terraform_text(*condition, pad + "    "@) + "\n"@ + pad
            + "  }\n"@ + pad + "}"@,
        _ => pad + "statement {\n"@ + pad + "  byte_match_statement {\n"@ + pad
            + "    search_string         = "@ + json_quoted(leaf_value(c)) + "\n"@ + pad
            + "    positional_constraint = \""@ + leaf_constraint(c) + "\"\n"@ + pad
            + "    field_to_match {\n"@ + pad + "      "@ + terraform_field(c) + "\n"@ + pad
            + "    }\n"@ + pad + "    text_transformation {\n"@ + pad + "      priority = 0\n"@
            + pad + "      type     = \"NONE\"\n"@ + pad + "    }\n"@ + pad + "  }\n"@ + pad
            + "}"@,
    }
}

/// The statements of the first `n` conditions, a line break between each two.
pub open spec fn terraform_parts(
    conditions: Vec<DefensiveCondition>,
    n: nat,
    pad: Seq<char>,
) -> Seq<char>
    decreases conditions, n,
{
    if n == 0 || n > conditions@.len() {
        seq![]
    } else if n == 1 {
        terraform_text(conditions@[0], pad)
    } else {
        terraform_parts(conditions, (n - 1) as nat, pad) + "\n"@ + terraform_text(
            conditions@[n - 1],
            pad,
        )
    }
}

fn terraform_field_text(c: &DefensiveCondition) -> (r: String)
    ensures
        r@ == terraform_field(*c),
{
    match c {
        DefensiveCondition::UriEquals { .. } => "uri_path {}".to_owned(),
        DefensiveCondition::UriContains { .. } => "uri_path {}".to_owned(),
        DefensiveCondition::UriStartsWith { .. } => "uri_path {}".to_owned(),
        DefensiveCondition::QueryEquals { .. } => "query_string {}".to_owned(),
        DefensiveCondition::QueryContains { .. } => "query_string {}".to_owned(),
        DefensiveCondition::MethodEquals { .. } => "method {}".to_owned(),
        DefensiveCondition::HostEquals { .. } => "single_header { name = \"host\" }".to_owned(),
        DefensiveCondition::HeaderEquals { name, .. } => {
            let mut text = "single_header { name = ".to_owned();
            text.append(quote_json(ascii_lowercase(name.as_str()).as_str()).as_str());
            text.append(" }");
            text
        },
        DefensiveCondition::HeaderContains { name, .. } => {
            let mut text = "single_header { name = ".to_owned();
            text.append(quote_json(ascii_lowercase(name.as_str()).as_str()).as_str());
            text.append(" }");
            text
        },
        DefensiveCondition::Ja3Equals { .. } =>
            "ja3_fingerprint { fallback_behavior = \"NO_MATCH\" }".to_owned(),
        DefensiveCondition::Ja4Equals { .. } =>
            "ja4_fingerprint { fallback_behavior = \"NO_MATCH\" }".to_owned(),
        _ => "single_header { name = \"user-agent\" }".to_owned(),
    }
}

fn wrapped_statement(pad: &str, operator: &str, inner: &str) -> (r: String)
    ensures
        r@ == pad@ + "statement {\n"@ + pad@ + "  "@ + operator@ + " {\n"@ + inner@ + "\n"@ + pad@
            + "  }\n"@ + pad@ + "}"@,
{
    let mut text = pad.to_owned();
    text.append("statement {\n");
    text.append(pad);
    text.append("  ");
    text.append(operator);
    text.append(" {\n");
    text.append(inner);
    text.append("\n");
    text.append(pad);
    text.append("  }\n");
    text.append(pad);
    text.append("}");
    text
}

fn terraform_leaf(c: &DefensiveCondition, pad: &str) -> (r: String)
    requires
        !(c is And),
        !(c is Or),
        !(c is Not),
    ensures
        r@ == terraform_text(*c, pad@),
{
    let mut text = pad.to_owned();
    text.append("statement {\n");
    text.append(pad);
    text.append("  byte_match_statement {\n");
    text.append(pad);
    text.append("    search_string         = ");
    text.append(quote_json(value_of(c).as_str()).as_str());
    text.append("\n");
    text.append(pad);
    text.append("    positional_constraint = \"");
    text.append(constraint_of(c));
    text.append("\"\n");
    text.append(pad);
    text.append("    field_to_match {\n");
    text.append(pad);
    text.append("      ");
    text.append(terraform_field_text(c).as_str());
    text.append("\n");
    text.append(pad);
    text.append("    }\n");
    text.append(pad);
    text.append("    text_transformation {\n");
    text.append(pad);
    text.append("      priority = 0\n");
    text.append(pad);
    text.append("      type     = \"NONE\"\n");
    text.append(pad);
    text.append("    }\n");
    text.append(pad);
    text.append("  }\n");
    text.append(pad);
    text.append("}");
    text
}

fn terraform_children(conditions: &Vec<DefensiveCondition>, pad: &str) -> (r: String)
    ensures
        r@ == terraform_parts(*conditions, conditions@.len(), pad@),
    decreases conditions, 0nat,
{
    let mut text = String::new();
    let mut i: usize = 0;
    #[verifier::loop_isolation(false)]
    while i < conditions.len()
        invariant
            i <= conditions@.len(),
            text@ == terraform_parts(*conditions, i as nat, pad@),
        decreases conditions.len() - i,
    {
        assert(decreases_to!(*conditions => conditions@[i as int]));
        let part = terraform_statement(&conditions[i], pad);
        if i == 0 {
            text = part;
        } else {
            text.append("\n");
            text.append(part.as_str());
        }
        i = i + 1;
    }
    text
}

/// The Terraform statement of a condition, each line behind a margin.
pub fn terraform_statement(c: &DefensiveCondition, pad: &str) -> (r: String)
    ensures
        r@ == terraform_text(*c, pad@),
    decreases c, 1nat,
{
    let mut deeper = pad.to_owned();
    deeper.append("    ");
    match c {
        DefensiveCondition::And { conditions } => {
            let inner = terraform_children(conditions, deeper.as_str());
            wrapped_statement(pad, "and_statement", inner.as_str())
        },
        DefensiveCondition::Or { conditions } => {
            let inner = terraform_children(conditions, deeper.as_str());
            wrapped_statement(pad, "or_statement", inner.as_str())
        },
        DefensiveCondition::Not { condition } => {
            let inner = terraform_statement(condition, deeper.as_str());
            wrapped_statement(pad, "not_statement", inner.as_str())
        },
        _ => terraform_leaf(c, pad),
    }
}

/// The Terraform fragment of a candidate. `coverage` is how the threat coverage is written.
pub open spec fn terraform_rule_text(
    c: DefensiveCandidate,
    priority: u32,
    coverage: Seq<char>,
) -> Seq<char> {
    "# Generated by Shenron. Defensive candidate only; review before deployment.\n# CVEs: "@
        + join_texts(texts(c.cves@), ", "@)
        + "\n# Recommended initial action: COUNT\n# Threat coverage: "@ + coverage
        + "; other historical matches: "@ + decimal(
        c.evidence.other_historical_matches as nat,
    )
        + "\n# Integrate this rule fragment into an existing aws_wafv2_web_acl.\n\nrule {\n  name     = "@
        + json_quoted(rule_name(c.id@)) + "\n  priority = "@ + decimal(priority as nat)
        + "\n\n  action {\n    count {}\n  }\n\n"@ + terraform_text(c.conditions, "  "@)
        + "\n  visibility_config {\n    cloudwatch_metrics_enabled = true\n    metric_name                = "@
        + json_quoted(rule_name(c.id@)) + "\n    sampled_requests_enabled   = true\n  }\n}\n"@
}

pub fn terraform_rule(c: &DefensiveCandidate, priority: u32, coverage: &str) -> (r: String)
    ensures
        r@ == terraform_rule_text(*c, priority, coverage@),
{
    let name = quote_json(safe_name(c.id.as_str()).as_str());
    let mut text =
        "# Generated by Shenron. Defensive candidate only; review before deployment.\n# CVEs: ".to_owned();
    text.append(join(&c.cves, ", ").as_str());
    text.append("\n# Recommended initial action: COUNT\n# Threat coverage: ");
    text.append(coverage);
    text.append("; other historical matches: ");
    push_decimal(&mut text, c.evidence.other_historical_matches);
    text.append(
        "\n# Integrate this rule fragment into an existing aws_wafv2_web_acl.\n\nrule {\n  name     = ",
    );
    text.append(name.as_str());
    text.append("\n  priority = ");
    push_decimal(&mut text, priority as u64);
    text.append("\n\n  action {\n    count {}\n  }\n\n");
    text.append(terraform_statement(&c.conditions, "  ").as_str());
    text.append(
        "\n  visibility_config {\n    cloudwatch_metrics_enabled = true\n    metric_name                = ",
    );
    text.append(name.as_str());
    text.append("\n    sampled_requests_enabled   = true\n  }\n}\n");
    text
}

/// How a character is written in XML.
pub open spec fn xml_escaped(c: char) -> Seq<char> {
    if c == '&' {
        "&amp;"@
    } else if c == '<' {
        "&lt;"@
    } else if c == '>' {
        "&gt;"@
    } else if c == '"' {
        "&quot;"@
    } else {
        seq![c]
    }
}

pub fn xml(value: &str) -> (r: String)
    ensures
        r@ == replaced(value@, |c: char| xml_escaped(c)),
{
    let chars = chars_of(value);
    let mut r = String::new();
    let mut i: usize = 0;
    while i < chars.len()
        invariant
            chars@ == value@,
            i <= chars@.len(),
            r@ == replaced(value@.take(i as int), |c: char| xml_escaped(c)),
        decreases chars.len() - i,
    {
        let c = chars[i];
        let ghost before = r@;
        if c == '&' {
            r.append("&amp;");
        } else if c == '<' {
            r.append("&lt;");
        } else if c == '>' {
            r.append("&gt;");
        } else if c == '"' {
            r.append("&quot;");
        } else {
            r.push(c);
            assert(r@ =~= before + seq![c]);
        }
        assert(value@.take(i + 1).drop_last() =~= value@.take(i as int));
        i = i + 1;
    }
    assert(value@.take(i as int) =~= value@);
    r
}

/// How a character is written in a regular expression that matches it literally.
pub open spec fn regex_escaped(c: char) -> Seq<char> {
    if c == '\\' || c == '.' || c == '+' || c == '*' || c == '?' || c == '(' || c == ')' || c == '|'
        || c == '[' || c == ']' || c == '{' || c == '}' || c == '^' || c == '$' || c == '#' || c
        == '&' || c == '-' || c == '~' {
        seq!['\\', c]
    } else {
        seq![c]
    }
}

pub open spec fn literal(s: Seq<char>) -> Seq<char> {
    replaced(s, |c: char| regex_escaped(c))
}

/// Escapes a text with `regex::escape`: a backslash before each meta character, and nothing else
/// changed.
#[verifier::external_body]
pub(crate) fn regex(value: &str) -> (r: String)
    ensures
        r@ == literal(value@),
{
    regex::escape(value)
}

/// Whether a condition is a conjunction, nested or not, of what the OSSEC exporter supports.
pub open spec fn flattens(c: DefensiveCondition) -> bool
    decreases c,
{
    match c {
        DefensiveCondition::And { conditions } => forall|i: int|
            0 <= i < conditions@.len() ==> flattens(#[trigger] conditions@[i]),
        _ => ossec_shape(c),
    }
}

/// What the OSSEC pattern demands for one condition.
pub open spec fn ossec_piece(c: DefensiveCondition) -> Seq<char> {
    let value = literal(leaf_value(c));
    match c {
        DefensiveCondition::MethodEquals { .. } => "(?=.*\\\""@ + value + " )"@,
        DefensiveCondition::UriEquals { .. } => "(?=.*\\\"[A-Z]+ "@ + value
            + "(?:\\?[^ ]*)? HTTP/)"@,
        DefensiveCondition::UriContains { .. } => "(?=.*\\\"[A-Z]+ [^ ]*"@ + value
            + "[^ ]* HTTP/)"@,
        DefensiveCondition::UriStartsWith { .. } => "(?=.*\\\"[A-Z]+ "@ + value + "[^ ]* HTTP/)"@,
        DefensiveCondition::QueryEquals { .. } => "(?=.*\\\"[A-Z]+ [^ ]*\\?"@ + value + " HTTP/)"@,
        DefensiveCondition::QueryContains { .. } => "(?=.*\\\"[A-Z]+ [^ ]*\\?[^ ]*"@ + value
            + "[^ ]* HTTP/)"@,
        DefensiveCondition::UserAgentEquals { .. } => "(?=.*\\\"[^\\\"]*\\\" \\\""@ + value
            + "\\\"$)"@,
        _ => "(?=.*\\\"[^\\\"]*\\\" \\\"[^\\\"]*"@ + value + "[^\\\"]*\\\"$)"@,
    }
}

/// What the OSSEC pattern demands for all conditions of a conjunction, in their order.
pub open spec fn ossec_pieces(c: DefensiveCondition) -> Seq<char>
    decreases c, 0nat,
{
    match c {
        DefensiveCondition::And { conditions } => ossec_pieces_up_to(
            conditions,
            conditions@.len(),
        ),
        _ => ossec_piece(c),
    }
}

pub open spec fn ossec_pieces_up_to(conditions: Vec<DefensiveCondition>, n: nat) -> Seq<char>
    decreases conditions, n,
{
    if n == 0 || n > conditions@.len() {
        seq![]
    } else {
        ossec_pieces_up_to(conditions, (n - 1) as nat) + ossec_pieces(conditions@[n - 1])
    }
}

fn ossec_leaf(c: &DefensiveCondition) -> (r: String)
    ensures
        r@ == ossec_piece(*c),
{
    let value = regex(value_of(c).as_str());
    let (before, after) = match c {
        DefensiveCondition::MethodEquals { .. } => ("(?=.*\\\"", " )"),
        DefensiveCondition::UriEquals { .. } => ("(?=.*\\\"[A-Z]+ ", "(?:\\?[^ ]*)? HTTP/)"),
        DefensiveCondition::UriContains { .. } => ("(?=.*\\\"[A-Z]+ [^ ]*", "[^ ]* HTTP/)"),
        DefensiveCondition::UriStartsWith { .. } => ("(?=.*\\\"[A-Z]+ ", "[^ ]* HTTP/)"),
        DefensiveCondition::QueryEquals { .. } => ("(?=.*\\\"[A-Z]+ [^ ]*\\?", " HTTP/)"),
        DefensiveCondition::QueryContains { .. } => (
            "(?=.*\\\"[A-Z]+ [^ ]*\\?[^ ]*",
            "[^ ]* HTTP/)",
        ),
        DefensiveCondition::UserAgentEquals { .. } => ("(?=.*\\\"[^\\\"]*\\\" \\\"", "\\\"$)"),
        _ => ("(?=.*\\\"[^\\\"]*\\\" \\\"[^\\\"]*", "[^\\\"]*\\\"$)"),
    };
    let mut text = before.to_owned();
    text.append(value.as_str());
    text.append(after);
    text
}

fn ossec_parts(c: &DefensiveCondition) -> (r: Option<String>)
    ensures
        match r {
            Some(text) => flattens(*c) && text@ == ossec_pieces(*c),
            None => !flattens(*c),
        },
    decreases c,
{
    match c {
        DefensiveCondition::And { conditions } => {
            let mut text = String::new();
            let mut i: usize = 0;
            #[verifier::loop_isolation(false)]
            while i < conditions.len()
                invariant
                    i <= conditions@.len(),
                    text@ == ossec_pieces_up_to(*conditions, i as nat),
                    forall|j: int| 0 <= j < i ==> flattens(#[trigger] conditions@[j]),
                decreases conditions.len() - i,
            {
                assert(decreases_to!(*conditions => conditions@[i as int]));
                match ossec_parts(&conditions[i]) {
                    Some(part) => {
                        text.append(part.as_str());
                    },
                    None => {
                        assert(!flattens(conditions@[i as int]));
                        return None;
                    },
                }
                i = i + 1;
            }
            Some(text)
        },
        _ => if ossec_shape_supported(c) {
            Some(ossec_leaf(c))
        } else {
            None
        },
    }
}

/// The OSSEC pattern of a condition; none where it is not a conjunction of supported conditions.
pub open spec fn ossec_pattern_text(c: DefensiveCondition) -> Option<Seq<char>> {
    if flattens(c) {
        Some("^"@ + ossec_pieces(c) + ".*$"@)
    } else {
        None
    }
}

pub fn ossec_pattern(c: &DefensiveCondition) -> (r: Option<String>)
    ensures
        crate::text::opt_text(r) == ossec_pattern_text(*c),
{
    match ossec_parts(c) {
        Some(parts) => {
            let mut text = "^".to_owned();
            text.append(parts.as_str());
            text.append(".*$");
            Some(text)
        },
        None => None,
    }
}

/// What the OSSEC exporter supports has a pattern.
pub proof fn supported_shapes_have_a_pattern(c: DefensiveCondition)
    requires
        ossec_shape(c),
    ensures
        ossec_pattern_text(c) is Some,
    decreases c,
{
    match c {
        DefensiveCondition::And { conditions } => {
            assert forall|i: int| 0 <= i < conditions@.len() implies flattens(
                #[trigger] conditions@[i],
            ) by {
                assert(ossec_shape(conditions@[i]));
                supported_shapes_have_a_pattern(conditions@[i]);
            }
        },
        _ => {},
    }
}

/// The lines that name the CVEs of a rule.
pub open spec fn info_lines(cves: Seq<Seq<char>>) -> Seq<char>
    decreases cves.len(),
{
    if cves.len() == 0 {
        seq![]
    } else {
        info_lines(cves.drop_last()) + "    <info type=\"cve\">"@ + replaced(
            cves.last(),
            |c: char| xml_escaped(c),
        ) + "</info>\n"@
    }
}

pub open spec fn ossec_rule_text(c: DefensiveCandidate, id: u32) -> Seq<char> {
    "<!-- Generated by Shenron. Detection control only: this does not block requests. -->\n<!-- Requires nginx/Apache combined logs decoded as web-log. Test with ossec-logtest. -->\n<group name=\"shenron,web,\">\n  <rule id=\""@
        + decimal(id as nat) + "\" level=\"10\">\n    <category>web-log</category>\n    <pcre2>"@
        + replaced(ossec_pattern_text(c.conditions).unwrap(), |c: char| xml_escaped(c))
        + "</pcre2>\n    <description>Shenron candidate "@ + replaced(
        c.id@,
        |c: char| xml_escaped(c),
    ) + " detection</description>\n"@ + info_lines(texts(c.cves@)) + "  </rule>\n</group>\n"@
}

/// Why a candidate was not exported.
#[derive(Clone, Debug)]
pub enum ExportError {
    Sensitive,
    NotSupported { status: CompatibilityStatus, reasons: Vec<String> },
    NotReplayed,
    NoPriority,
    RuleId,
    NoPattern,
}

pub open spec fn status_name(status: CompatibilityStatus) -> Seq<char> {
    match status {
        CompatibilityStatus::FullySupported => "FullySupported"@,
        CompatibilityStatus::PartiallySupported => "PartiallySupported"@,
        CompatibilityStatus::Unsupported => "Unsupported"@,
    }
}

impl ExportError {
    pub fn message(&self) -> (r: String)
        ensures
            r@ == match self {
                ExportError::Sensitive =>
                    "export refused: candidate condition appears to contain a credential, token, cookie, or personal secret"@,
                ExportError::NotSupported { status, reasons } => "export refused: "@ + status_name(
                    *status,
                ) + ": "@ + join_texts(texts(reasons@), "; "@),
                ExportError::NotReplayed =>
                    "preventive export refused: candidate has not been validated against historical traffic"@,
                ExportError::NoPriority =>
                    "preventive export requires --priority; Shenron cannot infer WebACL priority"@,
                ExportError::RuleId => "OSSEC rule id must be 100 through 99999"@,
                ExportError::NoPattern =>
                    "OSSEC exporter requires an AND of raw combined-log conditions"@,
            },
    {
        match self {
            ExportError::Sensitive =>
                "export refused: candidate condition appears to contain a credential, token, cookie, or personal secret".to_owned(),
            ExportError::NotSupported { status, reasons } => {
                let mut text = "export refused: ".to_owned();
                text.append(
                    match status {
                        CompatibilityStatus::FullySupported => "FullySupported",
                        CompatibilityStatus::PartiallySupported => "PartiallySupported",
                        CompatibilityStatus::Unsupported => "Unsupported",
                    },
                );
                text.append(": ");
                text.append(join(reasons, "; ").as_str());
                text
            },
            ExportError::NotReplayed =>
                "preventive export refused: candidate has not been validated against historical traffic".to_owned(),
            ExportError::NoPriority =>
                "preventive export requires --priority; Shenron cannot infer WebACL priority".to_owned(),
            ExportError::RuleId => "OSSEC rule id must be 100 through 99999".to_owned(),
            ExportError::NoPattern =>
                "OSSEC exporter requires an AND of raw combined-log conditions".to_owned(),
        }
    }
}

/// The OSSEC rule of a candidate.
pub fn ossec_rule(c: &DefensiveCandidate, id: u32) -> (r: Result<String, ExportError>)
    ensures
        match r {
            Ok(text) => 100 <= id <= 99_999 && flattens(c.conditions) && text@ == ossec_rule_text(
                *c,
                id,
            ),
            Err(ExportError::RuleId) => !(100 <= id <= 99_999),
            Err(ExportError::NoPattern) => 100 <= id <= 99_999 && !flattens(c.conditions),
            Err(_) => false,
        },
{
    if id < 100 || id > 99_999 {
        return Err(ExportError::RuleId);
    }
    let pattern = match ossec_pattern(&c.conditions) {
        Some(pattern) => pattern,
        None => {
            return Err(ExportError::NoPattern);
        },
    };
    let mut lines = String::new();
    let mut i: usize = 0;
    while i < c.cves.len()
        invariant
            i <= c.cves@.len(),
            lines@ == info_lines(texts(c.cves@).take(i as int)),
        decreases c.cves.len() - i,
    {
        assert(texts(c.cves@).take(i + 1).drop_last() =~= texts(c.cves@).take(i as int));
        lines.append("    <info type=\"cve\">");
        lines.append(xml(c.cves[i].as_str()).as_str());
        lines.append("</info>\n");
        i = i + 1;
    }
    assert(texts(c.cves@).take(i as int) =~= texts(c.cves@));
    let mut text =
        "<!-- Generated by Shenron. Detection control only: this does not block requests. -->\n<!-- Requires nginx/Apache combined logs decoded as web-log. Test with ossec-logtest. -->\n<group name=\"shenron,web,\">\n  <rule id=\"".to_owned();
    push_decimal(&mut text, id as u64);
    text.append("\" level=\"10\">\n    <category>web-log</category>\n    <pcre2>");
    text.append(xml(pattern.as_str()).as_str());
    text.append("</pcre2>\n    <description>Shenron candidate ");
    text.append(xml(c.id.as_str()).as_str());
    text.append(" detection</description>\n");
    text.append(lines.as_str());
    text.append("  </rule>\n</group>\n");
    Ok(text)
}

/// Whether a text looks like it holds a secret.
pub open spec fn looks_secret(value: Seq<char>) -> bool {
    let v = lower(value);
    contains_text(v, "authorization"@) || contains_text(v, "cookie"@) || contains_text(v, "token"@)
        || contains_text(v, "secret"@) || contains_text(v, "api-key"@) || contains_text(
        v,
        "apikey"@,
    ) || contains_text(v, "bearer "@)
}

/// Whether one of the texts of a condition looks like it holds a secret.
pub open spec fn is_sensitive(c: DefensiveCondition) -> bool {
    exists|i: int| 0 <= i < values_of(c).len() && looks_secret(#[trigger] values_of(c)[i])
}

pub fn reject_sensitive(c: &DefensiveCandidate) -> (r: Result<(), ExportError>)
    ensures
        match r {
            Ok(_) => !is_sensitive(c.conditions),
            Err(e) => e is Sensitive && is_sensitive(c.conditions),
        },
{
    let mut values: Vec<String> = Vec::new();
    assert(texts(values@) =~= Seq::<Seq<char>>::empty());
    c.conditions.values(&mut values);
    let ghost all = values_of(c.conditions);
    assert(Seq::<Seq<char>>::empty() + all =~= all);
    let mut i: usize = 0;
    while i < values.len()
        invariant
            i <= values@.len(),
            all == values_of(c.conditions),
            texts(values@) == all,
            forall|j: int| 0 <= j < i ==> !looks_secret(#[trigger] all[j]),
        decreases values.len() - i,
    {
        let lowered = ascii_lowercase(values[i].as_str());
        let v = lowered.as_str();
        assert(all[i as int] == values@[i as int]@);
        if contains(v, "authorization") || contains(v, "cookie") || contains(v, "token")
            || contains(v, "secret") || contains(v, "api-key") || contains(v, "apikey") || contains(
            v,
            "bearer ",
        ) {
            assert(looks_secret(all[i as int]));
            return Err(ExportError::Sensitive);
        }
        i = i + 1;
    }
    assert(all.len() == values@.len());
    Ok(())
}

/// What an export writes.
#[derive(Debug)]
pub enum Rendered {
    Json(Json),
    Text(String),
}

/// An export that may be written.
#[derive(Debug)]
pub struct ExportPlan {
    pub report: CompatibilityReport,
    pub rendered: Rendered,
}

/// Whether a plan holds the rule of a candidate for a control.
pub open spec fn is_plan(
    plan: ExportPlan,
    c: DefensiveCandidate,
    backend: Backend,
    telemetry: TelemetryProfile,
    priority: Option<u32>,
    ossec_rule_id: u32,
    coverage: Seq<char>,
) -> bool {
    &&& is_compatibility(plan.report, c.conditions, backend, telemetry)
    &&& match backend {
        Backend::AwsWafJson => plan.rendered matches Rendered::Json(j) && j@ == aws_rule_model(
            c,
            priority.unwrap(),
        ),
        Backend::TerraformAwsWaf => plan.rendered matches Rendered::Text(t) && t@
            == terraform_rule_text(c, priority.unwrap(), coverage),
        Backend::Ossec => plan.rendered matches Rendered::Text(t) && t@ == ossec_rule_text(
            c,
            ossec_rule_id,
        ),
    }
}

/// Whether nothing in a candidate looks secret and the control can express it faithfully.
pub open spec fn is_expressible(
    c: DefensiveCandidate,
    backend: Backend,
    telemetry: TelemetryProfile,
) -> bool {
    &&& !is_sensitive(c.conditions)
    &&& crate::condition::reasons_of(c.conditions, backend, telemetry, 0).len() == 0
}

/// Whether every reason to refuse an export is absent: nothing in the candidate looks secret, the
/// control can express it faithfully, and a preventive export has been replayed and has a
/// priority.
pub open spec fn may_export(
    c: DefensiveCandidate,
    backend: Backend,
    telemetry: TelemetryProfile,
    priority: Option<u32>,
) -> bool {
    &&& is_expressible(c, backend, telemetry)
    &&& backend.preventive() ==> c.evidence.replay_completed && priority is Some
}

/// Decides whether a candidate may be exported, and renders it. `coverage` is how its threat
/// coverage is written.
pub fn plan_export(
    candidate: &DefensiveCandidate,
    backend: Backend,
    telemetry: TelemetryProfile,
    priority: Option<u32>,
    ossec_rule_id: u32,
    coverage: &str,
) -> (r: Result<ExportPlan, ExportError>)
    ensures
        r matches Ok(plan) ==> {
            &&& may_export(*candidate, backend, telemetry, priority)
            &&& is_plan(
                plan,
                *candidate,
                backend,
                telemetry,
                priority,
                ossec_rule_id,
                coverage@,
            )
        },
        r is Ok == (may_export(*candidate, backend, telemetry, priority) && (backend is Ossec ==> 100
            <= ossec_rule_id <= 99_999 && flattens(candidate.conditions))),
        match r {
            Ok(_) => true,
            Err(ExportError::Sensitive) => is_sensitive(candidate.conditions),
            Err(ExportError::NotSupported { status, reasons }) => {
                &&& !is_sensitive(candidate.conditions)
                &&& texts(reasons@) == crate::condition::reasons_of(
                    candidate.conditions,
                    backend,
                    telemetry,
                    0,
                )
                &&& reasons@.len() > 0
                &&& status == status_of(texts(reasons@), candidate.conditions)
            },
            Err(ExportError::NotReplayed) => {
                &&& is_expressible(*candidate, backend, telemetry)
                &&& backend.preventive()
                &&& !candidate.evidence.replay_completed
            },
            Err(ExportError::NoPriority) => {
                &&& is_expressible(*candidate, backend, telemetry)
                &&& backend.preventive()
                &&& candidate.evidence.replay_completed
                &&& priority is None
            },
            Err(ExportError::RuleId) => {
                &&& is_expressible(*candidate, backend, telemetry)
                &&& backend is Ossec
                &&& !(100 <= ossec_rule_id <= 99_999)
            },
            Err(ExportError::NoPattern) => {
                &&& is_expressible(*candidate, backend, telemetry)
                &&& backend is Ossec
                &&& 100 <= ossec_rule_id <= 99_999
                &&& !flattens(candidate.conditions)
            },
        },
{
    if let Err(e) = reject_sensitive(candidate) {
        return Err(e);
    }
    let report = compatibility(candidate, backend, telemetry);
    assert(texts(report.reasons@).len() == report.reasons@.len());
    match report.status {
        CompatibilityStatus::FullySupported => {},
        status => {
            return Err(ExportError::NotSupported { status, reasons: report.reasons });
        },
    }
    let rendered = match backend {
        Backend::Ossec => match ossec_rule(candidate, ossec_rule_id) {
            Ok(text) => Rendered::Text(text),
            Err(e) => {
                return Err(e);
            },
        },
        _ => {
            if !candidate.evidence.replay_completed {
                return Err(ExportError::NotReplayed);
            }
            let level = match priority {
                Some(level) => level,
                None => {
                    return Err(ExportError::NoPriority);
                },
            };
            match backend {
                Backend::AwsWafJson => Rendered::Json(aws_rule(candidate, level)),
                _ => Rendered::Text(terraform_rule(candidate, level, coverage)),
            }
        },
    };
    Ok(ExportPlan { report, rendered })
}

/// A preventive control is never exported without a completed replay and a priority.
pub proof fn preventive_exports_need_a_replay(
    c: DefensiveCandidate,
    backend: Backend,
    telemetry: TelemetryProfile,
    priority: Option<u32>,
)
    requires
        may_export(c, backend, telemetry, priority),
        backend.preventive(),
    ensures
        c.evidence.replay_completed,
        priority is Some,
{
}

/// Whether an output path lies in a place that must not be written to.
pub open spec fn in_frozen_place(components: Seq<Seq<char>>) -> bool {
    exists|i: int|
        0 <= i < components.len() && (#[trigger] components[i] == "research"@ || components[i]
            == "nuclei-templates"@)
}

/// Why an output path is refused.
#[derive(Clone, Copy, Debug, PartialEq, Eq, Structural)]
pub enum OutputRefusal {
    Exists,
    FrozenPlace,
}

/// Decides whether an output may be written: never over an existing file, nor into frozen
/// research or a template checkout.
pub fn ensure_new(exists: bool, components: &Vec<String>) -> (r: Option<OutputRefusal>)
    ensures
        r == (if exists {
            Some(OutputRefusal::Exists)
        } else if in_frozen_place(texts(components@)) {
            Some(OutputRefusal::FrozenPlace)
        } else {
            None
        }),
{
    if exists {
        return Some(OutputRefusal::Exists);
    }
    let ghost all = texts(components@);
    let mut i: usize = 0;
    while i < components.len()
        invariant
            i <= components@.len(),
            all == texts(components@),
            !exists,
            forall|j: int|
                0 <= j < i ==> #[trigger] all[j] != "research"@ && all[j] != "nuclei-templates"@,
        decreases components.len() - i,
    {
        assert(all[i as int] == components@[i as int]@);
        if crate::text::same_text(components[i].as_str(), "research") || crate::text::same_text(
            components[i].as_str(),
            "nuclei-templates",
        ) {
            return Some(OutputRefusal::FrozenPlace);
        }
        i = i + 1;
    }
    None
}

} // verus!
