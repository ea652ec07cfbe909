use mg_market::text::{parse_u128, u128_to_string, u64_to_string};
use mg_market::wire::{parse_market_approve_msg, parse_payout, parse_string_object};

#[test]
fn decimal_formatting() {
    assert_eq!(u64_to_string(0), "0");
    assert_eq!(u64_to_string(7), "7");
    assert_eq!(u64_to_string(12345), "12345");
    assert_eq!(u64_to_string(u64::MAX), "18446744073709551615");
    assert_eq!(u128_to_string(0), "0");
    assert_eq!(u128_to_string(u128::MAX), "340282366920938463463374607431768211455");
}

#[test]
fn decimal_parsing() {
    assert_eq!(parse_u128("0"), Some(0));
    assert_eq!(parse_u128("1000"), Some(1000));
    assert_eq!(parse_u128("007"), Some(7));
    assert_eq!(parse_u128("340282366920938463463374607431768211455"), Some(u128::MAX));
    assert_eq!(parse_u128(""), None);
    assert_eq!(parse_u128("12a"), None);
    assert_eq!(parse_u128("-5"), None);
    // One past u128::MAX.
    assert_eq!(parse_u128("340282366920938463463374607431768211456"), None);
}

#[test]
fn object_parsing() {
    let pairs = parse_string_object("{\"a\":\"b\"}").unwrap();
    assert_eq!(pairs.len(), 1);
    assert_eq!(pairs[0].0, "a");
    assert_eq!(pairs[0].1, "b");

    let pairs = parse_string_object("{\"a\":\"b\",\"c\":\"d\"}").unwrap();
    assert_eq!(pairs.len(), 2);
    assert_eq!(pairs[1].0, "c");
    assert_eq!(pairs[1].1, "d");

    let empty = parse_string_object("{}").unwrap();
    assert_eq!(empty.len(), 0);
}

#[test]
fn object_parsing_rejects_malformed_input() {
    assert!(parse_string_object("").is_none());
    assert!(parse_string_object("{").is_none());
    assert!(parse_string_object("{\"a\":\"b\"").is_none());
    assert!(parse_string_object("{\"a\":1}").is_none());
    assert!(parse_string_object("{\"a\":\"b\",}").is_none());
    assert!(parse_string_object("{\"a\\\"x\":\"b\"}").is_none());
}

#[test]
fn approve_msg_parsing() {
    let m = parse_market_approve_msg(
        "{\"min_price\":\"1000\",\"gate_id\":\"G1\",\"creator_id\":\"carol\"}",
    )
    .unwrap();
    assert_eq!(m.min_price, 1000);
    assert_eq!(m.gate_id.as_deref(), Some("G1"));
    assert_eq!(m.creator_id.as_deref(), Some("carol"));

    let m = parse_market_approve_msg("{\"min_price\":\"2000\"}").unwrap();
    assert_eq!(m.min_price, 2000);
    assert!(m.gate_id.is_none());
    assert!(m.creator_id.is_none());
}

#[test]
fn approve_msg_rejections() {
    let e = parse_market_approve_msg("not json").unwrap_err();
    assert_eq!(e, "msg must be a flat JSON object of string fields");
    let e = parse_market_approve_msg("{\"gate_id\":\"G1\"}").unwrap_err();
    assert_eq!(e, "missing field `min_price`");
    let e = parse_market_approve_msg("{\"min_price\":\"12x\"}").unwrap_err();
    assert_eq!(e, "min_price is not a u128 decimal string");
    let e = parse_market_approve_msg("{\"min_price\":\"1\",\"min_price\":\"2\"}").unwrap_err();
    assert_eq!(e, "duplicate field in msg");
}

#[test]
fn payout_parsing() {
    let p = parse_payout("{\"alice\":\"1200\",\"carol\":\"300\"}").unwrap();
    assert_eq!(p.len(), 2);
    assert_eq!(p[0].0, "alice");
    assert_eq!(p[0].1, 1200);
    assert_eq!(p[1].0, "carol");
    assert_eq!(p[1].1, 300);

    assert!(parse_payout("{\"alice\":\"x\"}").is_none());
    assert!(parse_payout("{\"alice\":\"1\",\"alice\":\"2\"}").is_none());
    assert!(parse_payout("nonsense").is_none());
    assert_eq!(parse_payout("{}").unwrap().len(), 0);
}

#[test]
fn object_parsing_accepts_whitespace() {
    let pairs = parse_string_object("  { \"a\" : \"b\" , \"c\" : \"d\" }  ").unwrap();
    assert_eq!(pairs.len(), 2);
    assert_eq!(pairs[0].0, "a");
    assert_eq!(pairs[0].1, "b");
    assert_eq!(pairs[1].0, "c");
    assert_eq!(pairs[1].1, "d");

    let pairs = parse_string_object("{\n\t\"a\": \"b\"\r\n}").unwrap();
    assert_eq!(pairs.len(), 1);
    assert_eq!(pairs[0].1, "b");

    assert_eq!(parse_string_object("{ }").unwrap().len(), 0);
    assert_eq!(parse_string_object("  {}  ").unwrap().len(), 0);

    // Whitespace inside a string is content, not separation.
    let pairs = parse_string_object("{\"a\":\"b c\"}").unwrap();
    assert_eq!(pairs[0].1, "b c");
}

#[test]
fn approve_msg_accepts_whitespace() {
    let m = parse_market_approve_msg("{\"min_price\": \"1000\"}").unwrap();
    assert_eq!(m.min_price, 1000);
    let m = parse_market_approve_msg(
        " { \"min_price\" : \"1000\" , \"gate_id\" : \"G1\" } ",
    )
    .unwrap();
    assert_eq!(m.min_price, 1000);
    assert_eq!(m.gate_id.as_deref(), Some("G1"));
    // Whitespace inside the amount is part of the string and rejected.
    let e = parse_market_approve_msg("{\"min_price\":\" 1000\"}").unwrap_err();
    assert_eq!(e, "min_price is not a u128 decimal string");
}

#[test]
fn payout_accepts_whitespace() {
    let p = parse_payout("{\n  \"alice\": \"1200\",\n  \"carol\": \"300\"\n}").unwrap();
    assert_eq!(p.len(), 2);
    assert_eq!(p[0].0, "alice");
    assert_eq!(p[0].1, 1200);
    assert_eq!(p[1].0, "carol");
    assert_eq!(p[1].1, 300);
}
