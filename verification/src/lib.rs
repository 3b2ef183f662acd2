//! Passive hunting over local web logs. Measurements and comparisons are triage context for
//! review, never a determination of an attack, exploitation, compromise or identity.

pub mod access_log;
pub mod address_set;
pub mod bot_ranges;
pub mod candidate;
pub mod candidate_laws;
pub mod comparison;
pub mod comparison_laws;
pub mod concentration;
pub mod condition;
pub mod conditions;
pub mod consistency;
pub mod corpus_laws;
pub mod crawler_laws;
pub mod cti_export;
pub mod daily;
pub mod daily_laws;
pub mod detail_laws;
pub mod digest;
pub mod disposition;
pub mod document_laws;
pub mod evaluation;
pub mod evaluation_laws;
pub mod event;
pub mod evidence;
pub mod export;
pub mod finding;
pub mod findings_io;
pub mod first_seen_laws;
pub mod focus;
pub mod focus_groups;
pub mod grouping_laws;
pub mod investigation;
pub mod json;
pub mod json_order;
pub mod kev;
pub mod kev_laws;
pub mod lab;
pub mod lab_corpus;
pub mod lab_shape;
pub mod lab_validation;
pub mod measurement_laws;
pub mod network;
pub mod numbers;
pub mod ordered;
pub mod pattern_meaning;
pub mod permutation;
pub mod query_laws;
pub mod record_laws;
pub mod references;
pub mod renaming;
pub mod replay_laws;
pub mod report_laws;
pub mod reputation;
pub mod request_laws;
pub mod rule_meaning;
pub mod setup;
pub mod status;
pub mod sums;
pub mod text;
pub mod text_laws;
pub mod timeline;
pub mod tracking;
pub mod volume_laws;
pub mod volume_report;
pub mod window_laws;
