use shenron::address_set::{valid_ip_set_arn, FrozenAddressSet};
use shenron::evaluation::PathProvenance;
use shenron::findings_io::{resolve, FindingFile};

const V4: &str = "arn:aws:wafv2:eu-west-1:123456789012:regional/ipset/peers-v4/id_1";
const V6: &str = "arn:aws:wafv2:eu-west-1:123456789012:regional/ipset/peers-v6/id_2";

fn provenance(sha256: &str) -> PathProvenance {
    PathProvenance {
        path: "/private/set".to_owned(),
        byte_length: Some(1),
        sha256: Some(sha256.to_owned()),
    }
}

fn load(text: &str, v4: Option<&str>, v6: Option<&str>) -> FrozenAddressSet {
    FrozenAddressSet::load(
        text,
        provenance("s"),
        v4.map(str::to_owned),
        v6.map(str::to_owned),
    )
    .unwrap()
}

#[test]
fn each_line_is_a_network_or_is_counted() {
    let set = load(
        "# peers\n\n198.51.100.7/24 # office\r\n198.51.100.0/24\nnowhere\n2001:db8::1\n 203.0.113.9 \n",
        None,
        None,
    );
    assert_eq!(set.comment_or_empty_records, 2);
    assert_eq!(set.duplicate_records, 1);
    assert_eq!(set.invalid_records, 1);
    let shown: Vec<String> = set.networks.iter().map(|network| network.display()).collect();
    assert_eq!(shown, ["198.51.100.0/24", "203.0.113.9/32", "2001:db8::1/128"]);
    assert!(set.matches("198.51.100.200"));
    assert!(set.matches("2001:db8:0::1"));
    assert!(!set.matches("203.0.113.8"));
    assert!(!set.matches("peer"));
    assert!(set.has_v4() && set.has_v6());
}

#[test]
fn a_set_without_networks_is_refused() {
    let error =
        FrozenAddressSet::load("# a\nb\n\nc", provenance("s"), None, None).unwrap_err();
    assert_eq!(
        error.message(),
        "address set has no usable networks (invalid records: 2; comment/empty records: 2)"
    );
}

#[test]
fn a_snapshot_must_not_change() {
    let set = load("198.51.100.0/24\n", Some(V4), None);
    assert!(set.validate_snapshot("198.51.100.0/24\n", provenance("s")).is_ok());
    let message = "frozen source-address snapshot or normalized contents changed; rebuild and replay the candidate";
    for (text, sha256) in [("198.51.100.0/25\n", "s"), ("198.51.100.0/24\n", "t")] {
        assert_eq!(
            set.validate_snapshot(text, provenance(sha256)).unwrap_err().message(),
            message
        );
    }
    assert_ne!(
        set.validate_snapshot("", provenance("s")).unwrap_err().message(),
        message
    );
}

#[test]
fn references_follow_the_families() {
    assert_eq!(load("198.51.100.0/24", Some(V4), Some(V6)).references(), [V4]);
    assert_eq!(load("2001:db8::/32", Some(V4), Some(V6)).references(), [V6]);
    let both = load("198.51.100.0/24\n2001:db8::/32", Some(V4), Some(V6));
    assert_eq!(both.references(), [V4, V6]);
    assert!(both.compatibility_reasons().is_empty());
}

#[test]
fn reasons_are_given_for_what_cannot_be_represented() {
    assert_eq!(
        load("0.0.0.0/0", None, None).compatibility_reasons(),
        [
            "AWS WAF IP sets cannot faithfully represent /0 ranges",
            "IPv4 requires an operator-supplied WAFv2 IP set ARN"
        ]
    );
    let mixed = "198.51.100.0/24\n2001:db8::/32";
    assert_eq!(
        load(mixed, Some(V4), Some(V4)).compatibility_reasons(),
        ["IPv4 and IPv6 require distinct single-family IP sets"]
    );
    let elsewhere = V6.replace("eu-west-1", "eu-west-2");
    assert_eq!(
        load(mixed, Some(V4), Some(&elsewhere)).compatibility_reasons(),
        ["IPv4 and IPv6 IP set references must share account, region, and scope"]
    );
    assert_eq!(
        load(mixed, Some(V4), None).compatibility_reasons(),
        ["IPv6 requires an operator-supplied WAFv2 IP set ARN"]
    );
}

#[test]
fn arns_have_one_shape() {
    assert!(valid_ip_set_arn(V4));
    assert!(valid_ip_set_arn(
        "arn:aws-cn:wafv2:us-east-1:123456789012:global/ipset/a/b"
    ));
    for wrong in [
        "",
        "arn:aws:wafv2:eu-west-1:123456789012:regional/ipset/a",
        "arn:aws:wafv2:eu-west-1:12345678901:regional/ipset/a/b",
        "arn:aws:wafv2::123456789012:regional/ipset/a/b",
        "arn:aws:waf:eu-west-1:123456789012:regional/ipset/a/b",
        "arn:aws:wafv2:eu-west-1:123456789012:regional/ipset//b",
        "arn:aws:wafv2:eu-west-1:123456789012:zonal/ipset/a/b",
        "arn:aws:wafv2:eu-west-1:123456789012:regional/ipset/${a}/b",
    ] {
        assert!(!valid_ip_set_arn(wrong), "{wrong}");
    }
}

#[test]
fn stored_findings_are_found() {
    let plain = Some("private-findings.jsonl");
    let compressed = Some("private-findings.jsonl.gz");
    assert_eq!(resolve(compressed, false, false, false), FindingFile::PlainBeside);
    assert_eq!(resolve(compressed, true, false, true), FindingFile::Given);
    assert_eq!(resolve(plain, true, false, true), FindingFile::CompressedBeside);
    assert_eq!(resolve(plain, true, false, false), FindingFile::Given);
    assert_eq!(resolve(Some("run"), true, true, true), FindingFile::CompressedInside);
    assert_eq!(resolve(Some("run"), true, true, false), FindingFile::PlainInside);
    assert_eq!(resolve(None, false, false, true), FindingFile::Given);
}
