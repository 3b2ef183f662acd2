//! Private findings: a request that a detection rule matched, with what is known of it.

use crate::event::{HttpHeader, LogSource};
use vstd::prelude::*;

verus! {

/// How well a template's matches can be told from the observable part of a request.
#[derive(Clone, Copy, Debug, PartialEq, Eq, Structural)]
pub enum Detectability {
    High,
    Medium,
    Low,
    Undetectable,
    Unknown,
}

/// Whether a match is specific to the request that the rule describes.
#[derive(Clone, Copy, Debug, PartialEq, Eq, Structural)]
pub enum RequestSpecificity {
    RequestSpecific,
    ResponseUnverified,
}

/// Where the rule of a finding comes from.
#[derive(Clone, Copy, Debug, PartialEq, Eq, Structural)]
pub enum FindingSource {
    Nuclei,
    Sigma,
}

#[derive(Clone, Debug)]
pub struct FindingExplanation {
    pub template_id: String,
    pub cves: Vec<String>,
    pub detectability: Detectability,
    pub request_specificity: RequestSpecificity,
    pub timestamp: Option<String>,
    pub source_ip: Option<String>,
    pub client_ip: Option<String>,
    pub host: Option<String>,
    pub method: Option<String>,
    pub uri_path: Option<String>,
    pub uri_query: Option<String>,
    pub waf_action: Option<String>,
    pub waf_rule_id: Option<String>,
    pub waf_rule_type: Option<String>,
    pub waf_labels: Vec<String>,
    pub waf_non_terminating_rule_ids: Vec<String>,
    pub headers: Vec<HttpHeader>,
    pub ja3: Option<String>,
    pub ja4: Option<String>,
    pub request_id: Option<String>,
    pub log_source: Option<LogSource>,
    pub source: FindingSource,
    pub rule_title: Option<String>,
    pub sigma_level: Option<String>,
}

} // verus!
