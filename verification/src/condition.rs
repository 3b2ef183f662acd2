//! Source-neutral conditions on requests, and which controls can express them.

use crate::event::{HeaderCapability, HttpHeader, TelemetryProfile, WebEvent};
use crate::text::{
    ascii_lowercase, contains, contains_text, lower, opt_text, same_text, starts_with,
    starts_with_text, texts,
};
use vstd::prelude::*;
use vstd::string::*;

verus! {

broadcast use vstd::string::group_string_axioms;

#[derive(Debug)]
pub enum DefensiveCondition {
    UriEquals { value: String },
    UriContains { value: String },
    UriStartsWith { value: String },
    QueryEquals { value: String },
    QueryContains { value: String },
    MethodEquals { value: String },
    HostEquals { value: String },
    HeaderEquals { name: String, value: String },
    HeaderContains { name: String, value: String },
    Ja3Equals { value: String },
    Ja4Equals { value: String },
    UserAgentEquals { value: String },
    UserAgentContains { value: String },
    And { conditions: Vec<DefensiveCondition> },
    Or { conditions: Vec<DefensiveCondition> },
    Not { condition: Box<DefensiveCondition> },
}

/// Whether an optional attribute has exactly a value.
pub open spec fn equals(attribute: Option<String>, value: Seq<char>) -> bool {
    opt_text(attribute) == Some(value)
}

/// Whether an optional attribute is present and contains a value.
pub open spec fn has_part(attribute: Option<String>, value: Seq<char>) -> bool {
    attribute is Some && contains_text(attribute.unwrap()@, value)
}

/// Whether a header has a name, whatever its ASCII case.
pub open spec fn named(header: HttpHeader, name: Seq<char>) -> bool {
    lower(header.name@) == lower(name)
}

/// Whether a condition holds of an event. A condition on an absent attribute does not hold, and
/// neither does an empty conjunction.
pub open spec fn holds(c: DefensiveCondition, e: WebEvent) -> bool
    decreases c,
{
    match c {
        DefensiveCondition::UriEquals { value } => equals(e.uri_path, value@),
        DefensiveCondition::UriContains { value } => has_part(e.uri_path, value@),
        DefensiveCondition::UriStartsWith { value } => e.uri_path is Some && starts_with_text(
            e.uri_path.unwrap()@,
            value@,
        ),
        DefensiveCondition::QueryEquals { value } => equals(e.uri_query, value@),
        DefensiveCondition::QueryContains { value } => has_part(e.uri_query, value@),
        DefensiveCondition::MethodEquals { value } => equals(e.method, value@),
        DefensiveCondition::HostEquals { value } => equals(e.host, value@),
        DefensiveCondition::HeaderEquals { name, value } => exists|i: int|
            0 <= i < e.headers@.len() && named(#[trigger] e.headers@[i], name@)
                && e.headers@[i].value@ == value@,
        DefensiveCondition::HeaderContains { name, value } => exists|i: int|
            0 <= i < e.headers@.len() && named(#[trigger] e.headers@[i], name@) && contains_text(
                e.headers@[i].value@,
                value@,
            ),
        DefensiveCondition::Ja3Equals { value } => equals(e.ja3, value@),
        DefensiveCondition::Ja4Equals { value } => equals(e.ja4, value@),
        DefensiveCondition::UserAgentEquals { value } => equals(e.user_agent, value@),
        DefensiveCondition::UserAgentContains { value } => has_part(e.user_agent, value@),
        DefensiveCondition::And { conditions } => conditions@.len() > 0 && forall|i: int|
            0 <= i < conditions@.len() ==> holds(#[trigger] conditions@[i], e),
        DefensiveCondition::Or { conditions } => exists|i: int|
            0 <= i < conditions@.len() && holds(#[trigger] conditions@[i], e),
        DefensiveCondition::Not { condition } => !holds(*condition, e),
    }
}

fn attribute_equals(attribute: &Option<String>, value: &String) -> (r: bool)
    ensures
        r == equals(*attribute, value@),
{
    match attribute {
        Some(text) => same_text(text.as_str(), value.as_str()),
        None => false,
    }
}

fn attribute_has_part(attribute: &Option<String>, value: &String) -> (r: bool)
    ensures
        r == has_part(*attribute, value@),
{
    match attribute {
        Some(text) => contains(text.as_str(), value.as_str()),
        None => false,
    }
}

fn is_named(header: &HttpHeader, name: &str) -> (r: bool)
    ensures
        r == named(*header, name@),
{
    let a = ascii_lowercase(header.name.as_str());
    let b = ascii_lowercase(name);
    same_text(a.as_str(), b.as_str())
}

impl DefensiveCondition {
    #[verifier::loop_isolation(false)]
    pub fn matches(&self, event: &WebEvent) -> (r: bool)
        ensures
            r == holds(*self, *event),
        decreases self,
    {
        match self {
            DefensiveCondition::UriEquals { value } => attribute_equals(&event.uri_path, value),
            DefensiveCondition::UriContains { value } => attribute_has_part(&event.uri_path, value),
            DefensiveCondition::UriStartsWith { value } => match &event.uri_path {
                Some(text) => starts_with(text.as_str(), value.as_str()),
                None => false,
            },
            DefensiveCondition::QueryEquals { value } => attribute_equals(&event.uri_query, value),
            DefensiveCondition::QueryContains { value } => attribute_has_part(
                &event.uri_query,
                value,
            ),
            DefensiveCondition::MethodEquals { value } => attribute_equals(&event.method, value),
            DefensiveCondition::HostEquals { value } => attribute_equals(&event.host, value),
            DefensiveCondition::HeaderEquals { name, value } => {
                let mut i: usize = 0;
                while i < event.headers.len()
                    invariant
                        i <= event.headers@.len(),
                        *self == (DefensiveCondition::HeaderEquals { name: *name, value: *value }),
                        forall|j: int|
                            0 <= j < i ==> !(named(#[trigger] event.headers@[j], name@)
                                && event.headers@[j].value@ == value@),
                    decreases event.headers.len() - i,
                {
                    if is_named(&event.headers[i], name.as_str()) && same_text(
                        event.headers[i].value.as_str(),
                        value.as_str(),
                    ) {
                        assert(named(event.headers@[i as int], name@));
                        return true;
                    }
                    i = i + 1;
                }
                false
            },
            DefensiveCondition::HeaderContains { name, value } => {
                let mut i: usize = 0;
                while i < event.headers.len()
                    invariant
                        i <= event.headers@.len(),
                        *self == (DefensiveCondition::HeaderContains { name: *name, value: *value }),
                        forall|j: int|
                            0 <= j < i ==> !(named(#[trigger] event.headers@[j], name@)
                                && contains_text(event.headers@[j].value@, value@)),
                    decreases event.headers.len() - i,
                {
                    if is_named(&event.headers[i], name.as_str()) && contains(
                        event.headers[i].value.as_str(),
                        value.as_str(),
                    ) {
                        assert(named(event.headers@[i as int], name@));
                        return true;
                    }
                    i = i + 1;
                }
                false
            },
            DefensiveCondition::Ja3Equals { value } => attribute_equals(&event.ja3, value),
            DefensiveCondition::Ja4Equals { value } => attribute_equals(&event.ja4, value),
            DefensiveCondition::UserAgentEquals { value } => attribute_equals(
                &event.user_agent,
                value,
            ),
            DefensiveCondition::UserAgentContains { value } => attribute_has_part(
                &event.user_agent,
                value,
            ),
            DefensiveCondition::And { conditions } => {
                if conditions.len() == 0 {
                    return false;
                }
                let mut i: usize = 0;
                while i < conditions.len()
                    invariant
                        i <= conditions@.len(),
                        *self == (DefensiveCondition::And { conditions: *conditions }),
                        forall|j: int| 0 <= j < i ==> holds(#[trigger] conditions@[j], *event),
                    decreases conditions.len() - i,
                {
                    assert(decreases_to!(*conditions => conditions@[i as int]));
                    if !conditions[i].matches(event) {
                        assert(!holds(conditions@[i as int], *event));
                        return false;
                    }
                    i = i + 1;
                }
                true
            },
            DefensiveCondition::Or { conditions } => {
                let mut i: usize = 0;
                while i < conditions.len()
                    invariant
                        i <= conditions@.len(),
                        *self == (DefensiveCondition::Or { conditions: *conditions }),
                        forall|j: int| 0 <= j < i ==> !holds(#[trigger] conditions@[j], *event),
                    decreases conditions.len() - i,
                {
                    assert(decreases_to!(*conditions => conditions@[i as int]));
                    if conditions[i].matches(event) {
                        assert(holds(conditions@[i as int], *event));
                        return true;
                    }
                    i = i + 1;
                }
                false
            },
            DefensiveCondition::Not { condition } => !condition.matches(event),
        }
    }

    /// Appends every text that the condition holds.
    #[verifier::loop_isolation(false)]
    pub fn values(&self, output: &mut Vec<String>)
        ensures
            texts(final(output)@) == texts(old(output)@) + values_of(*self),
        decreases self,
    {
        let ghost before = texts(output@);
        match self {
            DefensiveCondition::UriEquals { value } => push_value(output, value),
            DefensiveCondition::UriContains { value } => push_value(output, value),
            DefensiveCondition::UriStartsWith { value } => push_value(output, value),
            DefensiveCondition::QueryEquals { value } => push_value(output, value),
            DefensiveCondition::QueryContains { value } => push_value(output, value),
            DefensiveCondition::MethodEquals { value } => push_value(output, value),
            DefensiveCondition::HostEquals { value } => push_value(output, value),
            DefensiveCondition::Ja3Equals { value } => push_value(output, value),
            DefensiveCondition::Ja4Equals { value } => push_value(output, value),
            DefensiveCondition::UserAgentEquals { value } => push_value(output, value),
            DefensiveCondition::UserAgentContains { value } => push_value(output, value),
            DefensiveCondition::HeaderEquals { name, value } => {
                push_value(output, name);
                push_value(output, value);
                assert(before + seq![name@] + seq![value@] =~= before + seq![name@, value@]);
            },
            DefensiveCondition::HeaderContains { name, value } => {
                push_value(output, name);
                push_value(output, value);
                assert(before + seq![name@] + seq![value@] =~= before + seq![name@, value@]);
            },
            DefensiveCondition::And { conditions } => {
                let mut i: usize = 0;
                assert(before + Seq::<Seq<char>>::empty() =~= before);
                while i < conditions.len()
                    invariant
                        i <= conditions@.len(),
                        *self == (DefensiveCondition::And { conditions: *conditions }),
                        texts(output@) == before + values_up_to(*conditions, i as nat),
                    decreases conditions.len() - i,
                {
                    let ghost head = values_up_to(*conditions, i as nat);
                    assert(decreases_to!(*conditions => conditions@[i as int]));
                    conditions[i].values(output);
                    assert(before + head + values_of(conditions@[i as int]) =~= before + (head
                        + values_of(conditions@[i as int])));
                    i = i + 1;
                }
            },
            DefensiveCondition::Or { conditions } => {
                let mut i: usize = 0;
                assert(before + Seq::<Seq<char>>::empty() =~= before);
                while i < conditions.len()
                    invariant
                        i <= conditions@.len(),
                        *self == (DefensiveCondition::Or { conditions: *conditions }),
                        texts(output@) == before + values_up_to(*conditions, i as nat),
                    decreases conditions.len() - i,
                {
                    let ghost head = values_up_to(*conditions, i as nat);
                    assert(decreases_to!(*conditions => conditions@[i as int]));
                    conditions[i].values(output);
                    assert(before + head + values_of(conditions@[i as int]) =~= before + (head
                        + values_of(conditions@[i as int])));
                    i = i + 1;
                }
            },
            DefensiveCondition::Not { condition } => condition.values(output),
        }
    }
}

fn push_value(output: &mut Vec<String>, value: &String)
    ensures
        texts(final(output)@) == texts(old(output)@) + seq![value@],
{
    let ghost before = output@;
    output.push(value.clone());
    assert(texts(output@) =~= texts(before) + seq![value@]);
}

/// Every text that a condition holds, in the order of the condition.
pub open spec fn values_of(c: DefensiveCondition) -> Seq<Seq<char>>
    decreases c, 0nat,
{
    match c {
        DefensiveCondition::UriEquals { value } => seq![value@],
        DefensiveCondition::UriContains { value } => seq![value@],
        DefensiveCondition::UriStartsWith { value } => seq![value@],
        DefensiveCondition::QueryEquals { value } => seq![value@],
        DefensiveCondition::QueryContains { value } => seq![value@],
        DefensiveCondition::MethodEquals { value } => seq![value@],
        DefensiveCondition::HostEquals { value } => seq![value@],
        DefensiveCondition::HeaderEquals { name, value } => seq![name@, value@],
        DefensiveCondition::HeaderContains { name, value } => seq![name@, value@],
        DefensiveCondition::Ja3Equals { value } => seq![value@],
        DefensiveCondition::Ja4Equals { value } => seq![value@],
        DefensiveCondition::UserAgentEquals { value } => seq![value@],
        DefensiveCondition::UserAgentContains { value } => seq![value@],
        DefensiveCondition::And { conditions } => values_up_to(conditions, conditions@.len()),
        DefensiveCondition::Or { conditions } => values_up_to(conditions, conditions@.len()),
        DefensiveCondition::Not { condition } => values_of(*condition),
    }
}

pub open spec fn values_up_to(conditions: Vec<DefensiveCondition>, n: nat) -> Seq<Seq<char>>
    decreases conditions, n,
{
    if n == 0 || n > conditions@.len() {
        seq![]
    } else {
        values_up_to(conditions, (n - 1) as nat) + values_of(conditions@[n - 1])
    }
}

/// A control that a candidate can be exported to.
#[derive(Clone, Copy, Debug, PartialEq, Eq, Structural)]
pub enum Backend {
    AwsWafJson,
    TerraformAwsWaf,
    Ossec,
}

impl Backend {
    pub open spec fn label(self) -> Seq<char> {
        match self {
            Backend::AwsWafJson => "aws-waf-json"@,
            Backend::TerraformAwsWaf => "terraform-aws-waf"@,
            Backend::Ossec => "ossec"@,
        }
    }

    pub fn name(self) -> (r: &'static str)
        ensures
            r@ == self.label(),
    {
        match self {
            Backend::AwsWafJson => "aws-waf-json",
            Backend::TerraformAwsWaf => "terraform-aws-waf",
            Backend::Ossec => "ossec",
        }
    }

    /// Whether the control can prevent requests, rather than only detect them.
    pub open spec fn preventive(self) -> bool {
        !(self is Ossec)
    }
}

#[derive(Clone, Copy, Debug, PartialEq, Eq, Structural)]
pub enum CompatibilityStatus {
    FullySupported,
    PartiallySupported,
    Unsupported,
}

#[derive(Clone, Debug)]
pub struct CompatibilityReport {
    pub backend: String,
    pub telemetry_profile: TelemetryProfile,
    pub status: CompatibilityStatus,
    pub reasons: Vec<String>,
}

/// Whether the OSSEC exporter can express the shape of a condition.
pub open spec fn ossec_shape(c: DefensiveCondition) -> bool
    decreases c,
{
    match c {
        DefensiveCondition::MethodEquals { .. } => true,
        DefensiveCondition::UriEquals { .. } => true,
        DefensiveCondition::UriContains { .. } => true,
        DefensiveCondition::UriStartsWith { .. } => true,
        DefensiveCondition::QueryEquals { .. } => true,
        DefensiveCondition::QueryContains { .. } => true,
        DefensiveCondition::UserAgentEquals { .. } => true,
        DefensiveCondition::UserAgentContains { .. } => true,
        DefensiveCondition::And { conditions } => conditions@.len() > 0 && forall|i: int|
            0 <= i < conditions@.len() ==> ossec_shape(#[trigger] conditions@[i]),
        _ => false,
    }
}

#[verifier::loop_isolation(false)]
pub fn ossec_shape_supported(c: &DefensiveCondition) -> (r: bool)
    ensures
        r == ossec_shape(*c),
    decreases c,
{
    match c {
        DefensiveCondition::MethodEquals { .. } => true,
        DefensiveCondition::UriEquals { .. } => true,
        DefensiveCondition::UriContains { .. } => true,
        DefensiveCondition::UriStartsWith { .. } => true,
        DefensiveCondition::QueryEquals { .. } => true,
        DefensiveCondition::QueryContains { .. } => true,
        DefensiveCondition::UserAgentEquals { .. } => true,
        DefensiveCondition::UserAgentContains { .. } => true,
        DefensiveCondition::And { conditions } => {
            if conditions.len() == 0 {
                return false;
            }
            let mut i: usize = 0;
            while i < conditions.len()
                invariant
                    i <= conditions@.len(),
                    *c == (DefensiveCondition::And { conditions: *conditions }),
                    forall|j: int| 0 <= j < i ==> ossec_shape(#[trigger] conditions@[j]),
                decreases conditions.len() - i,
            {
                assert(decreases_to!(*conditions => conditions@[i as int]));
                if !ossec_shape_supported(&conditions[i]) {
                    assert(!ossec_shape(conditions@[i as int]));
                    return false;
                }
                i = i + 1;
            }
            true
        },
        _ => false,
    }
}

pub open spec fn name_of(c: DefensiveCondition) -> Seq<char> {
    match c {
        DefensiveCondition::Ja4Equals { .. } => "JA4 equality"@,
        DefensiveCondition::Ja3Equals { .. } => "JA3 equality"@,
        DefensiveCondition::HostEquals { .. } => "host equality"@,
        DefensiveCondition::HeaderEquals { .. } => "header equality"@,
        DefensiveCondition::HeaderContains { .. } => "header contains"@,
        DefensiveCondition::Or { .. } => "OR"@,
        DefensiveCondition::Not { .. } => "NOT"@,
        _ => "condition"@,
    }
}

pub fn condition_name(c: &DefensiveCondition) -> (r: &'static str)
    ensures
        r@ == name_of(*c),
{
    match c {
        DefensiveCondition::Ja4Equals { .. } => "JA4 equality",
        DefensiveCondition::Ja3Equals { .. } => "JA3 equality",
        DefensiveCondition::HostEquals { .. } => "host equality",
        DefensiveCondition::HeaderEquals { .. } => "header equality",
        DefensiveCondition::HeaderContains { .. } => "header contains",
        DefensiveCondition::Or { .. } => "OR",
        DefensiveCondition::Not { .. } => "NOT",
        _ => "condition",
    }
}

/// The number of conditions without parts of their own.
pub open spec fn leaves(c: DefensiveCondition) -> nat
    decreases c, 0nat,
{
    match c {
        DefensiveCondition::And { conditions } => leaves_up_to(conditions, conditions@.len()),
        DefensiveCondition::Or { conditions } => leaves_up_to(conditions, conditions@.len()),
        DefensiveCondition::Not { condition } => leaves(*condition),
        _ => 1,
    }
}

pub open spec fn leaves_up_to(conditions: Vec<DefensiveCondition>, n: nat) -> nat
    decreases conditions, n,
{
    if n == 0 || n > conditions@.len() {
        0
    } else {
        leaves_up_to(conditions, (n - 1) as nat) + leaves(conditions@[n - 1])
    }
}

/// Takes the leaves of a condition off a budget; none where the budget is too small.
#[verifier::loop_isolation(false)]
fn leaf_count(c: &DefensiveCondition, budget: usize) -> (r: Option<usize>)
    ensures
        match r {
            Some(rest) => rest == budget - leaves(*c),
            None => leaves(*c) > budget,
        },
    decreases c,
{
    match c {
        DefensiveCondition::And { conditions } => {
            let mut rest: usize = budget;
            let mut i: usize = 0;
            while i < conditions.len()
                invariant
                    i <= conditions@.len(),
                    *c == (DefensiveCondition::And { conditions: *conditions }),
                    rest == budget - leaves_up_to(*conditions, i as nat),
                decreases conditions.len() - i,
            {
                assert(decreases_to!(*conditions => conditions@[i as int]));
                match leaf_count(&conditions[i], rest) {
                    Some(n) => {
                        rest = n;
                    },
                    None => {
                        proof {
                            lemma_leaves_grow(*conditions, (i + 1) as nat);
                        }
                        return None;
                    },
                }
                i = i + 1;
            }
            Some(rest)
        },
        DefensiveCondition::Or { conditions } => {
            let mut rest: usize = budget;
            let mut i: usize = 0;
            while i < conditions.len()
                invariant
                    i <= conditions@.len(),
                    *c == (DefensiveCondition::Or { conditions: *conditions }),
                    rest == budget - leaves_up_to(*conditions, i as nat),
                decreases conditions.len() - i,
            {
                assert(decreases_to!(*conditions => conditions@[i as int]));
                match leaf_count(&conditions[i], rest) {
                    Some(n) => {
                        rest = n;
                    },
                    None => {
                        proof {
                            lemma_leaves_grow(*conditions, (i + 1) as nat);
                        }
                        return None;
                    },
                }
                i = i + 1;
            }
            Some(rest)
        },
        DefensiveCondition::Not { condition } => leaf_count(condition, budget),
        _ => if budget > 0 {
            Some(budget - 1)
        } else {
            None
        },
    }
}

proof fn lemma_leaves_grow(conditions: Vec<DefensiveCondition>, n: nat)
    requires
        n <= conditions@.len(),
    ensures
        leaves_up_to(conditions, n) <= leaves_up_to(conditions, conditions@.len()),
    decreases conditions@.len() - n,
{
    if n < conditions@.len() {
        lemma_leaves_grow(conditions, n + 1);
    }
}

pub open spec fn unavailable_reason(field: Seq<char>) -> Seq<char> {
    field + " is unavailable in the selected telemetry profile"@
}

/// The reason why an attribute cannot be used, where it is not available.
pub open spec fn unless_available(field: Seq<char>, available: bool) -> Seq<Seq<char>> {
    if available {
        seq![]
    } else {
        seq![unavailable_reason(field)]
    }
}

/// Statements nested deeper than this are refused by AWS WAF. A depth beyond it stays there.
pub open spec fn deeper(depth: nat) -> nat {
    if depth > 3 {
        depth
    } else {
        depth + 1
    }
}

/// The reasons why a condition cannot be expressed faithfully.
pub open spec fn reasons_of(
    c: DefensiveCondition,
    backend: Backend,
    telemetry: TelemetryProfile,
    depth: nat,
) -> Seq<Seq<char>>
    decreases c, 0nat,
{
    if backend.preventive() && depth > 3 {
        seq!["AWS WAF permits at most three nested logical statement levels"@]
    } else {
        let can = telemetry.records();
        let own = match c {
            DefensiveCondition::HostEquals { .. } => unless_available("host"@, can.host),
            DefensiveCondition::Ja3Equals { .. } => unless_available("JA3"@, can.ja3),
            DefensiveCondition::Ja4Equals { .. } => unless_available("JA4"@, can.ja4),
            DefensiveCondition::HeaderEquals { .. } => unless_available(
                "arbitrary request headers"@,
                can.headers is Arbitrary,
            ),
            DefensiveCondition::HeaderContains { .. } => unless_available(
                "arbitrary request headers"@,
                can.headers is Arbitrary,
            ),
            DefensiveCondition::UserAgentEquals { .. } => unless_available(
                "User-Agent"@,
                can.user_agent,
            ),
            DefensiveCondition::UserAgentContains { .. } => unless_available(
                "User-Agent"@,
                can.user_agent,
            ),
            DefensiveCondition::And { conditions } => if conditions@.len() == 0 {
                seq!["empty logical condition"@]
            } else {
                reasons_up_to(conditions, conditions@.len(), backend, telemetry, deeper(depth))
            },
            DefensiveCondition::Or { conditions } => if conditions@.len() == 0 {
                seq!["empty logical condition"@]
            } else {
                reasons_up_to(conditions, conditions@.len(), backend, telemetry, deeper(depth))
            },
            DefensiveCondition::Not { condition } => reasons_of(
                *condition,
                backend,
                telemetry,
                deeper(depth),
            ),
            _ => seq![],
        };
        if backend is Ossec && own.len() == 0 && !ossec_shape(c) {
            seq![
                "OSSEC raw combined-log exporter cannot faithfully represent "@ + name_of(c),
            ]
        } else {
            own
        }
    }
}

pub open spec fn reasons_up_to(
    conditions: Vec<DefensiveCondition>,
    n: nat,
    backend: Backend,
    telemetry: TelemetryProfile,
    depth: nat,
) -> Seq<Seq<char>>
    decreases conditions, n,
{
    if n == 0 || n > conditions@.len() {
        seq![]
    } else {
        reasons_up_to(conditions, (n - 1) as nat, backend, telemetry, depth) + reasons_of(
            conditions@[n - 1],
            backend,
            telemetry,
            depth,
        )
    }
}

fn note_unavailable(reasons: &mut Vec<String>, field: &str, available: bool)
    ensures
        texts(final(reasons)@) == texts(old(reasons)@) + unless_available(field@, available),
{
    let ghost before = reasons@;
    if !available {
        let mut reason = field.to_owned();
        reason.append(" is unavailable in the selected telemetry profile");
        push_value(reasons, &reason);
    } else {
        assert(texts(before) + Seq::<Seq<char>>::empty() =~= texts(before));
    }
}

#[verifier::loop_isolation(false)]
fn compatible_children(
    conditions: &Vec<DefensiveCondition>,
    backend: Backend,
    telemetry: TelemetryProfile,
    reasons: &mut Vec<String>,
    depth: u8,
)
    requires
        depth <= 4,
    ensures
        texts(final(reasons)@) == texts(old(reasons)@) + reasons_up_to(
            *conditions,
            conditions@.len(),
            backend,
            telemetry,
            depth as nat,
        ),
    decreases conditions, 0nat,
{
    let ghost before = texts(reasons@);
    assert(before + Seq::<Seq<char>>::empty() =~= before);
    let mut i: usize = 0;
    while i < conditions.len()
        invariant
            depth <= 4,
            i <= conditions@.len(),
            texts(reasons@) == before + reasons_up_to(
                *conditions,
                i as nat,
                backend,
                telemetry,
                depth as nat,
            ),
        decreases conditions.len() - i,
    {
        let ghost head = reasons_up_to(*conditions, i as nat, backend, telemetry, depth as nat);
        assert(decreases_to!(*conditions => conditions@[i as int]));
        compatible_condition(&conditions[i], backend, telemetry, reasons, depth);
        proof {
            let one = reasons_of(conditions@[i as int], backend, telemetry, depth as nat);
            assert(before + head + one =~= before + (head + one));
        }
        i = i + 1;
    }
}

/// Appends the reasons why a condition cannot be expressed faithfully.
pub fn compatible_condition(
    c: &DefensiveCondition,
    backend: Backend,
    telemetry: TelemetryProfile,
    reasons: &mut Vec<String>,
    depth: u8,
)
    requires
        depth <= 4,
    ensures
        texts(final(reasons)@) == texts(old(reasons)@) + reasons_of(
            *c,
            backend,
            telemetry,
            depth as nat,
        ),
    decreases c, 1nat,
{
    let ghost before = texts(reasons@);
    let reasons_before = reasons.len();
    let preventive = match backend {
        Backend::Ossec => false,
        _ => true,
    };
    if preventive && depth > 3 {
        let reason = "AWS WAF permits at most three nested logical statement levels".to_owned();
        push_value(reasons, &reason);
        return ;
    }
    let next: u8 = if depth > 3 {
        depth
    } else {
        depth + 1
    };
    let can = telemetry.capabilities();
    let any_header = match can.headers {
        HeaderCapability::Arbitrary => true,
        _ => false,
    };
    match c {
        DefensiveCondition::HostEquals { .. } => note_unavailable(reasons, "host", can.host),
        DefensiveCondition::Ja3Equals { .. } => note_unavailable(reasons, "JA3", can.ja3),
        DefensiveCondition::Ja4Equals { .. } => note_unavailable(reasons, "JA4", can.ja4),
        DefensiveCondition::HeaderEquals { .. } => note_unavailable(
            reasons,
            "arbitrary request headers",
            any_header,
        ),
        DefensiveCondition::HeaderContains { .. } => note_unavailable(
            reasons,
            "arbitrary request headers",
            any_header,
        ),
        DefensiveCondition::UserAgentEquals { .. } => note_unavailable(
            reasons,
            "User-Agent",
            can.user_agent,
        ),
        DefensiveCondition::UserAgentContains { .. } => note_unavailable(
            reasons,
            "User-Agent",
            can.user_agent,
        ),
        DefensiveCondition::And { conditions } => {
            if conditions.len() == 0 {
                let reason = "empty logical condition".to_owned();
                push_value(reasons, &reason);
            } else {
                compatible_children(conditions, backend, telemetry, reasons, next);
            }
        },
        DefensiveCondition::Or { conditions } => {
            if conditions.len() == 0 {
                let reason = "empty logical condition".to_owned();
                push_value(reasons, &reason);
            } else {
                compatible_children(conditions, backend, telemetry, reasons, next);
            }
        },
        DefensiveCondition::Not { condition } => {
            compatible_condition(condition, backend, telemetry, reasons, next);
        },
        _ => {
            assert(before + Seq::<Seq<char>>::empty() =~= before);
        },
    }
    assert(texts(reasons@).len() == reasons@.len());
    assert(before.len() == reasons_before);
    let is_ossec = match backend {
        Backend::Ossec => true,
        _ => false,
    };
    if is_ossec && reasons.len() == reasons_before && !ossec_shape_supported(c) {
        let ghost now = texts(reasons@);
        assert(now =~= before);
        let mut reason =
            "OSSEC raw combined-log exporter cannot faithfully represent ".to_owned();
        reason.append(condition_name(c));
        push_value(reasons, &reason);
    }
}

pub open spec fn status_of(reasons: Seq<Seq<char>>, c: DefensiveCondition) -> CompatibilityStatus {
    if reasons.len() == 0 {
        CompatibilityStatus::FullySupported
    } else if reasons.len() == leaves(c) {
        CompatibilityStatus::Unsupported
    } else {
        CompatibilityStatus::PartiallySupported
    }
}

/// Whether a report says how far a control can express a condition.
pub open spec fn is_compatibility(
    r: CompatibilityReport,
    c: DefensiveCondition,
    backend: Backend,
    telemetry: TelemetryProfile,
) -> bool {
    &&& r.backend@ == backend.label()
    &&& r.telemetry_profile == telemetry
    &&& texts(r.reasons@) == reasons_of(c, backend, telemetry, 0)
    &&& r.status == status_of(texts(r.reasons@), c)
}

pub fn condition_compatibility(
    c: &DefensiveCondition,
    backend: Backend,
    telemetry: TelemetryProfile,
) -> (r: CompatibilityReport)
    ensures
        is_compatibility(r, *c, backend, telemetry),
{
    let mut reasons: Vec<String> = Vec::new();
    assert(texts(reasons@) =~= Seq::<Seq<char>>::empty());
    compatible_condition(c, backend, telemetry, &mut reasons, 0);
    proof {
        assert(Seq::<Seq<char>>::empty() + reasons_of(*c, backend, telemetry, 0) =~= reasons_of(
            *c,
            backend,
            telemetry,
            0,
        ));
        assert(texts(reasons@).len() == reasons@.len());
    }
    let status = if reasons.len() == 0 {
        CompatibilityStatus::FullySupported
    } else {
        match leaf_count(c, reasons.len()) {
            Some(rest) => if rest == 0 {
                CompatibilityStatus::Unsupported
            } else {
                CompatibilityStatus::PartiallySupported
            },
            None => CompatibilityStatus::PartiallySupported,
        }
    };
    CompatibilityReport {
        backend: backend.name().to_owned(),
        telemetry_profile: telemetry,
        status,
        reasons,
    }
}

/// A condition whose shape OSSEC supports is fully supported wherever user agents are recorded.
pub proof fn supported_shapes_have_no_reasons(
    c: DefensiveCondition,
    telemetry: TelemetryProfile,
    depth: nat,
)
    requires
        ossec_shape(c),
    ensures
        reasons_of(c, Backend::Ossec, telemetry, depth).len() == 0,
    decreases c, 0nat,
{
    assert(telemetry.records().user_agent);
    match c {
        DefensiveCondition::And { conditions } => {
            lemma_supported_children(conditions, conditions@.len(), telemetry, deeper(depth));
        },
        _ => {},
    }
}

proof fn lemma_supported_children(
    conditions: Vec<DefensiveCondition>,
    n: nat,
    telemetry: TelemetryProfile,
    depth: nat,
)
    requires
        n <= conditions@.len(),
        forall|i: int| 0 <= i < conditions@.len() ==> ossec_shape(#[trigger] conditions@[i]),
    ensures
        reasons_up_to(conditions, n, Backend::Ossec, telemetry, depth).len() == 0,
    decreases conditions, n,
{
    if n > 0 {
        lemma_supported_children(conditions, (n - 1) as nat, telemetry, depth);
        assert(ossec_shape(conditions@[n - 1]));
        supported_shapes_have_no_reasons(conditions@[n - 1], telemetry, depth);
    }
}

/// Negation is exact: a condition and its negation never agree on an event.
pub proof fn negation_is_exact(condition: Box<DefensiveCondition>, e: WebEvent)
    ensures
        holds(DefensiveCondition::Not { condition }, e) == !holds(*condition, e),
{
}

/// Whether an attribute that a condition refers to is absent from an event.
pub open spec fn absent(c: DefensiveCondition, e: WebEvent) -> bool
    decreases c,
{
    match c {
        DefensiveCondition::UriEquals { .. } => e.uri_path is None,
        DefensiveCondition::UriContains { .. } => e.uri_path is None,
        DefensiveCondition::UriStartsWith { .. } => e.uri_path is None,
        DefensiveCondition::QueryEquals { .. } => e.uri_query is None,
        DefensiveCondition::QueryContains { .. } => e.uri_query is None,
        DefensiveCondition::MethodEquals { .. } => e.method is None,
        DefensiveCondition::HostEquals { .. } => e.host is None,
        DefensiveCondition::HeaderEquals { name, .. } => forall|i: int|
            0 <= i < e.headers@.len() ==> !named(#[trigger] e.headers@[i], name@),
        DefensiveCondition::HeaderContains { name, .. } => forall|i: int|
            0 <= i < e.headers@.len() ==> !named(#[trigger] e.headers@[i], name@),
        DefensiveCondition::Ja3Equals { .. } => e.ja3 is None,
        DefensiveCondition::Ja4Equals { .. } => e.ja4 is None,
        DefensiveCondition::UserAgentEquals { .. } => e.user_agent is None,
        DefensiveCondition::UserAgentContains { .. } => e.user_agent is None,
        DefensiveCondition::And { conditions } => exists|i: int|
            0 <= i < conditions@.len() && absent(#[trigger] conditions@[i], e),
        DefensiveCondition::Or { conditions } => exists|i: int|
            0 <= i < conditions@.len() && absent(#[trigger] conditions@[i], e),
        DefensiveCondition::Not { condition } => absent(*condition, e),
    }
}

fn header_absent(event: &WebEvent, name: &str) -> (r: bool)
    ensures
        r == (forall|i: int|
            0 <= i < event.headers@.len() ==> !named(#[trigger] event.headers@[i], name@)),
{
    let mut i: usize = 0;
    while i < event.headers.len()
        invariant
            i <= event.headers@.len(),
            forall|j: int| 0 <= j < i ==> !named(#[trigger] event.headers@[j], name@),
        decreases event.headers.len() - i,
    {
        if is_named(&event.headers[i], name) {
            assert(named(event.headers@[i as int], name@));
            return false;
        }
        i = i + 1;
    }
    true
}

/// Whether an attribute that a condition refers to is absent from an event.
#[verifier::loop_isolation(false)]
pub fn absent_condition_field(c: &DefensiveCondition, e: &WebEvent) -> (r: bool)
    ensures
        r == absent(*c, *e),
    decreases c,
{
    match c {
        DefensiveCondition::UriEquals { .. } => e.uri_path.is_none(),
        DefensiveCondition::UriContains { .. } => e.uri_path.is_none(),
        DefensiveCondition::UriStartsWith { .. } => e.uri_path.is_none(),
        DefensiveCondition::QueryEquals { .. } => e.uri_query.is_none(),
        DefensiveCondition::QueryContains { .. } => e.uri_query.is_none(),
        DefensiveCondition::MethodEquals { .. } => e.method.is_none(),
        DefensiveCondition::HostEquals { .. } => e.host.is_none(),
        DefensiveCondition::HeaderEquals { name, .. } => header_absent(e, name.as_str()),
        DefensiveCondition::HeaderContains { name, .. } => header_absent(e, name.as_str()),
        DefensiveCondition::Ja3Equals { .. } => e.ja3.is_none(),
        DefensiveCondition::Ja4Equals { .. } => e.ja4.is_none(),
        DefensiveCondition::UserAgentEquals { .. } => e.user_agent.is_none(),
        DefensiveCondition::UserAgentContains { .. } => e.user_agent.is_none(),
        DefensiveCondition::And { conditions } => {
            let mut i: usize = 0;
            while i < conditions.len()
                invariant
                    i <= conditions@.len(),
                    *c == (DefensiveCondition::And { conditions: *conditions }),
                    forall|j: int| 0 <= j < i ==> !absent(#[trigger] conditions@[j], *e),
                decreases conditions.len() - i,
            {
                assert(decreases_to!(*conditions => conditions@[i as int]));
                if absent_condition_field(&conditions[i], e) {
                    assert(absent(conditions@[i as int], *e));
                    return true;
                }
                i = i + 1;
            }
            false
        },
        DefensiveCondition::Or { conditions } => {
            let mut i: usize = 0;
            while i < conditions.len()
                invariant
                    i <= conditions@.len(),
                    *c == (DefensiveCondition::Or { conditions: *conditions }),
                    forall|j: int| 0 <= j < i ==> !absent(#[trigger] conditions@[j], *e),
                decreases conditions.len() - i,
            {
                assert(decreases_to!(*conditions => conditions@[i as int]));
                if absent_condition_field(&conditions[i], e) {
                    assert(absent(conditions@[i as int], *e));
                    return true;
                }
                i = i + 1;
            }
            false
        },
        DefensiveCondition::Not { condition } => absent_condition_field(condition, e),
    }
}

} // verus!
