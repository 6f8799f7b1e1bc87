use disklog::query::{parse_query_string, ParsedQuery};
use disklog::read::ReadOptions;

#[test]
fn parse_all_options() {
    let qs = "from=1&end_before=2&end_after=3&max_items=4";
    let options = parse_query_string(qs)
        .and_then(ReadOptions::from_query)
        .expect("Valid parse");
    assert_eq!(Some(1), options.from);
    assert_eq!(Some(2), options.end_before);
    assert_eq!(Some(3), options.end_after);
    assert_eq!(Some(4), options.max_items);
}

#[test]
fn parse_empty_query_string() {
    assert_eq!(Some(ParsedQuery::new()), parse_query_string(""));
}

#[test]
fn empty_query_gives_default_options() {
    let options = parse_query_string("")
        .and_then(ReadOptions::from_query)
        .expect("Valid parse");
    assert_eq!(None, options.from);
    assert_eq!(None, options.end_before);
    assert_eq!(None, options.end_after);
    assert_eq!(None, options.max_items);
    assert_eq!(false, options.wait_for_more);
}

#[test]
fn wait_for_more_is_true_or_false() {
    let yes = parse_query_string("wait_for_more=true")
        .and_then(ReadOptions::from_query)
        .expect("Valid parse");
    assert_eq!(true, yes.wait_for_more);
    let no = parse_query_string("wait_for_more=false")
        .and_then(ReadOptions::from_query)
        .expect("Valid parse");
    assert_eq!(false, no.wait_for_more);
    assert!(parse_query_string("wait_for_more=1")
        .and_then(ReadOptions::from_query)
        .is_none());
    assert!(parse_query_string("wait_for_more=True")
        .and_then(ReadOptions::from_query)
        .is_none());
}

#[test]
fn query_pairs_keep_their_order() {
    let query = parse_query_string("b=2&a=1&c=").expect("Valid parse");
    assert_eq!(3, query.len());
    assert_eq!(("b", "2"), query.pair(0));
    assert_eq!(("a", "1"), query.pair(1));
    assert_eq!(("c", ""), query.pair(2));
    assert!(query.contains_key("a"));
    assert!(!query.contains_key("d"));
}

#[test]
fn query_with_a_key_twice_is_refused() {
    assert!(parse_query_string("from=1&from=2").is_none());
    assert!(parse_query_string("a=1&b=2&a=1").is_none());
}

#[test]
fn query_piece_needs_exactly_one_equals_sign() {
    assert!(parse_query_string("from").is_none());
    assert!(parse_query_string("from=1=2").is_none());
    assert!(parse_query_string("from=1&").is_none());
    assert!(parse_query_string("&from=1").is_none());
    assert!(parse_query_string("&").is_none());
    assert!(parse_query_string("=").is_some());
}

#[test]
fn unknown_key_is_refused() {
    assert!(parse_query_string("start=1")
        .and_then(ReadOptions::from_query)
        .is_none());
    assert!(parse_query_string("from=1&x=2")
        .and_then(ReadOptions::from_query)
        .is_none());
}

#[test]
fn numbers_are_decimal_with_an_optional_plus() {
    let options = parse_query_string("from=+17&end_after=007&end_before=18446744073709551615")
        .and_then(ReadOptions::from_query)
        .expect("Valid parse");
    assert_eq!(Some(17), options.from);
    assert_eq!(Some(7), options.end_after);
    assert_eq!(Some(u64::MAX), options.end_before);
    for bad in [
        "from=",
        "from=+",
        "from=-1",
        "from=1a",
        "from= 1",
        "from=1_000",
        "from=18446744073709551616",
        "from=99999999999999999999999",
        "from=++1",
        "from=\u{0661}",
    ] {
        assert!(
            parse_query_string(bad).and_then(ReadOptions::from_query).is_none(),
            "{}",
            bad
        );
    }
}

#[test]
fn numbers_agree_with_the_standard_parser() {
    for text in ["0", "+0", "1", "42", "00042", "18446744073709551615", "18446744073709551616", "", "+", "-", "4 2", "x", "１"] {
        let query = format!("from={}", text);
        let ours = parse_query_string(&query).and_then(ReadOptions::from_query).map(|o| o.from);
        let std: Option<u64> = text.parse().ok();
        assert_eq!(std.map(Some), ours, "{:?}", text);
    }
    for text in ["true", "false", "TRUE", "", "t", "truee"] {
        let query = format!("wait_for_more={}", text);
        let ours = parse_query_string(&query)
            .and_then(ReadOptions::from_query)
            .map(|o| o.wait_for_more);
        let std: Option<bool> = text.parse().ok();
        assert_eq!(std, ours, "{:?}", text);
    }
}

#[test]
fn stream_ends_as_the_options_say() {
    let none = parse_query_string("")
        .and_then(ReadOptions::from_query)
        .expect("Valid parse");
    assert!(!none.ends_at(0));
    assert!(!none.ends_at(u64::MAX));

    let zero = parse_query_string("max_items=0")
        .and_then(ReadOptions::from_query)
        .expect("Valid parse");
    assert!(zero.ends_at(0));
    let one = parse_query_string("max_items=1")
        .and_then(ReadOptions::from_query)
        .expect("Valid parse");
    assert!(!one.ends_at(0));

    let before = parse_query_string("end_before=17")
        .and_then(ReadOptions::from_query)
        .expect("Valid parse");
    assert!(!before.ends_at(0));
    assert!(before.ends_at(17));
    assert!(!before.ends_at(38));

    let after = parse_query_string("end_after=17")
        .and_then(ReadOptions::from_query)
        .expect("Valid parse");
    assert!(!after.ends_at(0));
    assert!(!after.ends_at(17));
    assert!(after.ends_at(18));
    assert!(after.ends_at(38));
}
