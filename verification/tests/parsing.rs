//! Universe parsing, text helpers and the rate-limit messages.

use pairtrade::config::{
    default_history_file, parse_pairs_list, parse_pairs_vec, parse_symbols_vec, str_lt, PairSpec,
    ParseError, StringOrVec,
};
use pairtrade::notify::{notify_rate_limit, RateLimitNotifier};
use pairtrade::text::{is_pnl_log_file, sanitize_pnl_tag, sanitize_symbol_for_filename, split_char,
    trim_str};

#[test]
fn split_char_keeps_empty_pieces() {
    let pieces = split_char("a,,b", ',');
    assert_eq!(pieces, vec!["a".to_string(), "".to_string(), "b".to_string()]);
    assert_eq!(split_char("", ','), vec!["".to_string()]);
    assert_eq!(split_char("abc", ','), vec!["abc".to_string()]);
}

#[test]
fn trim_removes_ascii_whitespace() {
    assert_eq!(trim_str("  BTC\t"), "BTC".to_string());
    assert_eq!(trim_str(" \r\n "), "".to_string());
    assert_eq!(trim_str("x y"), "x y".to_string());
}

#[test]
fn sanitize_replaces_foreign_characters() {
    assert_eq!(sanitize_symbol_for_filename("BTC/USD"), "BTC_USD".to_string());
    assert_eq!(sanitize_symbol_for_filename("abc-1_2"), "abc-1_2".to_string());
    assert_eq!(sanitize_pnl_tag("tag one!"), "tag_one_".to_string());
}

#[test]
fn pnl_log_file_names() {
    assert!(is_pnl_log_file("pnl-20240101.jsonl"));
    assert!(!is_pnl_log_file("pnl-x.json"));
    assert!(!is_pnl_log_file("data-20240101.jsonl"));
    assert!(is_pnl_log_file("pnl-.jsonl"));
    assert!(!is_pnl_log_file("pnl.jsonl"));
}

#[test]
fn parse_pairs_list_accepts_slash_pairs() {
    let pairs = parse_pairs_list("BTC/ETH, ETH/SOL").expect("two well-formed pairs");
    assert_eq!(pairs.len(), 2);
    assert_eq!(pairs[0].base, "BTC");
    assert_eq!(pairs[0].quote, "ETH");
    assert_eq!(pairs[1].base, "ETH");
    assert_eq!(pairs[1].quote, "SOL");
}

#[test]
fn parse_pairs_list_takes_the_first_two_segments() {
    let pairs = parse_pairs_list("BTC/ETH/SOL").expect("extra segments are ignored");
    assert_eq!(pairs.len(), 1);
    assert_eq!(pairs[0].base, "BTC");
    assert_eq!(pairs[0].quote, "ETH");
}

#[test]
fn parse_pairs_list_rejects_a_missing_slash() {
    assert!(matches!(parse_pairs_list("BTC"), Err(ParseError::InvalidPair)));
}

#[test]
fn parse_pairs_list_rejects_an_empty_universe() {
    assert!(matches!(parse_pairs_list(" , "), Err(ParseError::EmptyUniverse)));
    assert!(matches!(parse_pairs_list(""), Err(ParseError::EmptyUniverse)));
}

#[test]
fn parse_pairs_vec_joins_entries() {
    let entries = vec!["BTC/ETH".to_string(), "ETH/SOL".to_string()];
    let pairs = parse_pairs_vec(&entries).expect("two entries");
    assert_eq!(pairs.len(), 2);
    assert_eq!(pairs[1].base, "ETH");
    assert_eq!(pairs[1].quote, "SOL");
}

#[test]
fn parse_symbols_vec_expands_all_ordered_pairs() {
    let symbols = vec!["ETH".to_string(), "BTC".to_string(), "SOL".to_string()];
    let pairs = parse_symbols_vec(&symbols).expect("three symbols");
    assert_eq!(pairs.len(), 3);
    assert_eq!((pairs[0].base.as_str(), pairs[0].quote.as_str()), ("BTC", "ETH"));
    assert_eq!((pairs[1].base.as_str(), pairs[1].quote.as_str()), ("ETH", "SOL"));
    assert_eq!((pairs[2].base.as_str(), pairs[2].quote.as_str()), ("BTC", "SOL"));
}

#[test]
fn parse_symbols_vec_rejects_fewer_than_two() {
    assert!(matches!(parse_symbols_vec(&vec!["BTC".to_string()]), Err(ParseError::EmptyUniverse)));
    assert!(matches!(parse_symbols_vec(&vec![" ".to_string()]), Err(ParseError::EmptyUniverse)));
}

#[test]
fn lexicographic_name_order() {
    assert!(str_lt("BTC", "ETH"));
    assert!(!str_lt("ETH", "BTC"));
    assert!(str_lt("BTC", "BTCX"));
    assert!(!str_lt("BTC", "BTC"));
}

#[test]
fn into_vec_cleans_both_forms() {
    let single = StringOrVec::Single("a, b ,,c".to_string());
    assert_eq!(single.into_vec(), vec!["a".to_string(), "b".to_string(), "c".to_string()]);
    let many = StringOrVec::Many(vec![" x ".to_string(), "".to_string(), "y".to_string()]);
    assert_eq!(many.into_vec(), vec!["x".to_string(), "y".to_string()]);
}

#[test]
fn rate_limit_messages_carry_the_context() {
    let (subject, body) = notify_rate_limit("", "get_ticker BTC", "too many requests");
    assert_eq!(subject, "[RateLimit] get_ticker BTC");
    assert_eq!(
        body,
        "HTTP 429 Too Many Requests detected while get_ticker BTC.\nDetail: too many requests"
    );
    let tagged = RateLimitNotifier::new("BTC".to_string());
    let (subject2, _) = tagged.notify("get_order_book", "x");
    assert_eq!(subject2, "[BTC] Rate limit - get_order_book");
}

#[test]
fn default_history_file_sorts_and_sanitizes_symbols() {
    let universe = vec![
        PairSpec { base: "ETH".to_string(), quote: "BTC/P".to_string() },
        PairSpec { base: "BTC/P".to_string(), quote: "AAA".to_string() },
    ];
    assert_eq!(
        default_history_file(&universe),
        "pairtrade_history_AAA_BTC_P_ETH.json"
    );
    let empty: Vec<PairSpec> = Vec::new();
    assert_eq!(default_history_file(&empty), "pairtrade_history.json");
}
