use shenron::digest::{digest, hex_digit, hex_text};
use shenron::json::Json;
use shenron::json_order::sort_by_fields;
use shenron::network::{Address, Network};
use shenron::numbers::{floor_quotient, median_and_peak, rank, Median, NumberMap};
use shenron::ordered::{TextMap, TextSet};
use shenron::status::{record_status_class, StatusClassCounts, StatusCodeCounts};
use shenron::text::{
    ascii_lowercase, ascii_uppercase, compare_text, contains, decimal_text, ends_with, join, lines,
    padded_text, parse_unsigned, signed_text, split, split_whitespace, starts_with, trim, trim_end,
    TextOrder,
};
use shenron::timeline::{start_of_bucket, OutcomeWindow, RateWindow, Timeline};

#[test]
fn texts_are_ordered_by_their_characters() {
    let list = ["", "a", "aa", "b", "\u{e9}", "\u{ffff}", "\u{10000}"];
    for (i, a) in list.iter().enumerate() {
        for (j, b) in list.iter().enumerate() {
            let order = match i.cmp(&j) {
                std::cmp::Ordering::Less => TextOrder::Before,
                std::cmp::Ordering::Equal => TextOrder::Same,
                std::cmp::Ordering::Greater => TextOrder::After,
            };
            assert_eq!(compare_text(a, b), order);
            assert_eq!(a.cmp(b), i.cmp(&j));
        }
    }
}

#[test]
fn texts_are_searched_and_cut() {
    assert!(contains("abc", "bc") && contains("abc", "") && !contains("abc", "cb"));
    assert!(starts_with("abc", "ab") && ends_with("abc", "bc") && !ends_with("c", "bc"));
    assert_eq!(split("a,,b", ','), ["a", "", "b"]);
    assert_eq!(split("", ','), [""]);
    assert_eq!(lines("a\r\nb\n\nc\r"), ["a", "b", "", "c\r"]);
    assert!(lines("").is_empty());
    assert_eq!(trim("\u{2003}\ta b\n"), "a b");
    assert_eq!(trim_end(" a\r\n"), " a");
    assert_eq!(split_whitespace(" a \t b\n"), ["a", "b"]);
    assert_eq!(join(&vec!["a".to_owned(), "b".to_owned()], "; "), "a; b");
    assert_eq!(ascii_lowercase("AZ\u{c9}"), "az\u{c9}");
    assert_eq!(ascii_uppercase("az\u{e9}"), "AZ\u{e9}");
}

#[test]
fn numbers_are_written_and_read() {
    assert_eq!(decimal_text(0), "0");
    assert_eq!(decimal_text(u64::MAX), "18446744073709551615");
    assert_eq!(signed_text(i64::MIN), "-9223372036854775808");
    assert_eq!(padded_text(7, 3), "007");
    assert_eq!(padded_text(1234, 3), "1234");
    assert_eq!(parse_unsigned("00012", 255), Some(12));
    assert_eq!(parse_unsigned("+12", 255), Some(12));
    assert_eq!(parse_unsigned("256", 255), None);
    assert_eq!(parse_unsigned("", 255), None);
    assert_eq!(parse_unsigned("-1", 255), None);
}

#[test]
fn text_maps_keep_their_keys_in_order() {
    let mut map = TextMap::new();
    assert!(map.is_empty());
    for (key, value) in [("b", 1), ("a", 2), ("b", 3)] {
        map.insert(key.to_owned(), value);
    }
    assert_eq!(map.len(), 2);
    assert_eq!((map.key_at(0).as_str(), *map.value_at(0)), ("a", 2));
    assert_eq!((map.key_at(1).as_str(), *map.value_at(1)), ("b", 3));
    *map.get_mut("a").unwrap() += 5;
    assert_eq!(map.get("a"), Some(&7));
    assert!(!map.contains_key("c") && map.get("c").is_none());
    let mut set = TextSet::new();
    for value in ["b", "a", "b"] {
        set.insert(value.to_owned());
    }
    assert_eq!(set.to_list(), ["a", "b"]);
    let mut numbers = NumberMap::new();
    for key in [3, -1, 3] {
        numbers.insert(key, key * 2);
    }
    assert_eq!(numbers.len(), 2);
    assert_eq!(numbers.key_at(0), -1);
    assert_eq!(numbers.get(3), Some(&6));
}

#[test]
fn medians_and_ranks_are_exact() {
    assert_eq!(median_and_peak(&vec![]), (None, None));
    assert_eq!(
        median_and_peak(&vec![9, 1, 4, 2]),
        (Some(Median { lower: 2, upper: 4 }), Some(9))
    );
    assert_eq!(
        median_and_peak(&vec![5, 1, 3]),
        (Some(Median { lower: 3, upper: 3 }), Some(5))
    );
    assert_eq!(rank(&vec![1, 5, 5, 7]), [3, 1, 2, 0]);
    assert_eq!(floor_quotient(-1, 60), -1);
    assert_eq!(floor_quotient(-60, 60), -1);
    assert_eq!(floor_quotient(119, 60), 1);
}

#[test]
fn addresses_and_networks_are_read_and_shown() {
    let v4 = Address::parse("198.51.100.7").unwrap();
    assert!(v4.v4);
    assert_eq!(v4.bits, 0xc633_6407);
    let v6 = Address::parse("2001:0db8:0:0:0:0:0:1").unwrap();
    assert_eq!(v6.display(), "2001:db8::1");
    for text in ["0.0.0.0", "255.255.255.255", "10.200.3.40"] {
        assert_eq!(Address::parse(text).unwrap().display(), text);
    }
    let mapped = Address::parse("::ffff:198.51.100.7").unwrap();
    assert!(!mapped.v4);
    assert_eq!(mapped.canonical(), v4);
    assert_eq!(v6.canonical(), v6);
    assert_eq!(Address::parse("198.51.100.256"), None);
    assert_eq!(Address::parse("198.51.100.7/32"), None);

    let network = Network::parse("198.51.100.7/24").unwrap();
    assert_eq!(network.display(), "198.51.100.7/24");
    assert_eq!(network.trunc().display(), "198.51.100.0/24");
    assert!(network.contains(&v4) && !network.contains(&mapped));
    assert_eq!(Network::single(&v4).display(), "198.51.100.7/32");
    assert_eq!(Network::parse("198.51.100.7"), None);
    assert_eq!(Network::parse("198.51.100.7/33"), None);
    let everything = Network::parse("::/0").unwrap();
    assert!(everything.contains(&v6) && !everything.contains(&v4));
    assert!(network.is_before(&everything) && !everything.is_before(&network));
}

#[test]
fn digests_are_written_in_hexadecimal() {
    assert_eq!(
        digest(b"abc"),
        "ba7816bf8f01cfea414140de5dae2223b00361a396177a9cb410ff61f20015ad"
    );
    assert_eq!(hex_text(&vec![0, 15, 160, 255]), "000fa0ff");
    assert_eq!(hex_digit(10), 'a');
}

#[test]
fn json_is_read_and_written() {
    let value =
        Json::parse("{\"b\": [1, -2, true, null], \"a\": {\"c\": \"q\\\"\\n\"}}").unwrap();
    assert_eq!(value.get2("a", "c").unwrap().as_text().unwrap(), "q\"\n");
    assert_eq!(value.get("b").unwrap().as_list().unwrap().len(), 4);
    assert_eq!(value.get("b").unwrap().as_list().unwrap()[0].as_u64(), Some(1));
    assert_eq!(value.get("b").unwrap().as_list().unwrap()[1].as_u64(), None);
    assert!(value.get("b").unwrap().as_list().unwrap()[3].is_null());
    assert_eq!(
        value.compact(),
        "{\"a\":{\"c\":\"q\\\"\\n\"},\"b\":[1,-2,true,null]}"
    );
    assert_eq!(value.copy().compact(), value.compact());
    assert!(Json::parse("{").is_none());
    assert!(Json::parse("1 2").is_none());
    assert_eq!(Json::wrap("n", Json::signed(-3)).compact(), "{\"n\":-3}");
    assert!(value.get("missing").is_none());
    assert!(value.get3("a", "c", "d").is_none());
}

#[test]
fn objects_are_sorted_by_two_fields() {
    let object = |kind: &str, id: &str, mark: u64| {
        Json::object(vec![
            ("type".to_owned(), Json::text(kind)),
            ("id".to_owned(), Json::text(id)),
            ("mark".to_owned(), Json::number(mark)),
        ])
    };
    let sorted = sort_by_fields(
        vec![
            object("b", "1", 0),
            object("a", "2", 1),
            object("a", "1", 2),
            object("a", "2", 3),
        ],
        "type",
        "id",
    );
    let marks: Vec<u64> = sorted
        .iter()
        .map(|value| value.get("mark").unwrap().as_u64().unwrap())
        .collect();
    assert_eq!(marks, [2, 1, 3, 0]);
}

#[test]
fn responses_are_counted_by_class_and_code() {
    let mut classes = StatusClassCounts::default();
    for status in [Some(100), Some(204), Some(301), Some(404), Some(499), Some(503), Some(600), None] {
        record_status_class(&mut classes, status);
    }
    assert_eq!(classes.client_error, 2);
    assert_eq!(classes.client_closed_request_499, 1);
    assert_eq!(classes.ordinary_client_error(), 1);
    assert_eq!(classes.other, 1);
    assert_eq!(classes.unavailable, 1);
    assert_eq!(classes.total_observations(), 8);
    let mut more = classes;
    more.merge(&classes);
    assert_eq!(more.total_observations(), 16);

    let mut codes = StatusCodeCounts::with_maximum(2);
    for status in [Some(200), Some(404), Some(500), Some(404), None] {
        codes.record(status, 2);
    }
    assert_eq!(codes.counts.get(&404), Some(&2));
    assert_eq!(codes.counts.len(), 2);
    assert_eq!(codes.observations_beyond_cap, 1);
}

#[test]
fn buckets_are_counted_up_to_a_cap() {
    let mut timeline = Timeline::new();
    assert!(timeline.track_minute_bucket(2, 5));
    assert!(timeline.track_minute_bucket(2, -1));
    assert!(!timeline.track_minute_bucket(2, 6));
    assert!(timeline.track_minute_bucket(2, 5));
    assert_eq!(timeline.beyond_cap, 1);
    let series: Vec<(i64, u64)> = timeline
        .minute_series()
        .iter()
        .map(|minute| (minute.minute_epoch, minute.requests))
        .collect();
    assert_eq!(series.len(), 2);
    assert_eq!(series[0].1, 1);
    assert_eq!(series[1].1, 2);
    let rate = timeline.request_rate();
    assert_eq!(rate.peak, Some(2));
    assert_eq!(rate.median, Some(Median { lower: 1, upper: 2 }));

    let mut window = RateWindow::new(60);
    window.track(10, -1);
    window.track(10, 59);
    assert_eq!(window.timeline.buckets.len(), 2);
    assert_eq!(start_of_bucket(-1, 60).unwrap().seconds, -60);
    assert!(start_of_bucket(i64::MAX, 60).is_none());

    let mut outcomes = OutcomeWindow::new(60);
    for status in [200, 500, 500, 500] {
        outcomes.track(10, 61, Some(status));
    }
    let summary = outcomes.response_outcome_summary(4, 50, 3);
    assert_eq!(summary.eligible_buckets, 1);
    assert_eq!(summary.observations_without_timestamp, 3);
    let least = summary.minimum_success_share.unwrap();
    assert_eq!((least.numerator, least.denominator), (1, 4));
    assert_eq!(summary.minimum_success_bucket_start.unwrap().seconds, 60);
}

#[test]
fn only_the_counter_that_grows_needs_room() {
    let mut codes = StatusCodeCounts::with_maximum(2);
    codes.add(200, u64::MAX);
    codes.add(404, u64::MAX - 1);
    codes.add(500, u64::MAX);
    codes.record(Some(404), 2);
    assert_eq!(codes.counts.get(&200), Some(&u64::MAX));
    assert_eq!(codes.counts.get(&404), Some(&u64::MAX));
    assert_eq!(codes.observations_beyond_cap, u64::MAX);
    assert_eq!(codes.observations(), None);
    let mut other = StatusCodeCounts::with_maximum(3);
    other.add(301, 1);
    other.merge(&codes);
    assert_eq!(other.counts.get(&200), Some(&u64::MAX));
    assert_eq!(other.counts.get(&301), Some(&1));
    assert_eq!(other.observations_beyond_cap, u64::MAX);
    let mut classes = StatusClassCounts { success: u64::MAX, ..StatusClassCounts::default() };
    record_status_class(&mut classes, Some(404));
    assert_eq!((classes.success, classes.client_error), (u64::MAX, 1));
    let mut sum = StatusClassCounts { other: 2, ..StatusClassCounts::default() };
    sum.merge(&classes);
    assert_eq!((sum.success, sum.client_error, sum.other), (u64::MAX, 1, 2));
    assert!(!sum.can_total());
}
