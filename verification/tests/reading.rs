use creembar::creem::{base_url, check_status, envelope_key, search_url, CreemError};
use creembar::poller::{fmt_money, kind_label};
use creembar::commands::connection_key;
use creembar::text::{eq_ignore_ascii_case, parse_u64, push_decimal, str_equal};

#[test]
fn money_has_two_decimals_and_upper_case_currency() {
    assert_eq!(fmt_money(1999, "usd"), "19.99 USD");
    assert_eq!(fmt_money(100, "eur"), "1.00 EUR");
    assert_eq!(fmt_money(7, ""), "0.07");
    assert_eq!(fmt_money(0, ""), "0.00");
    assert_eq!(fmt_money(-5, ""), "-0.05");
    assert_eq!(fmt_money(-123456, "gbp"), "-1234.56 GBP");
    assert_eq!(fmt_money(i64::MIN, ""), "-92233720368547758.08");
    assert_eq!(fmt_money(i64::MAX, "usd"), "92233720368547758.07 USD");
}

#[test]
fn kind_labels() {
    assert_eq!(kind_label("invoice"), "subscription");
    assert_eq!(kind_label("payment"), "one-time");
    assert_eq!(kind_label(""), "payment");
    assert_eq!(kind_label("refund"), "refund");
    assert_eq!(kind_label("Invoice"), "Invoice");
}

#[test]
fn ascii_case_folding() {
    assert!(eq_ignore_ascii_case("PAID", "paid"));
    assert!(eq_ignore_ascii_case("pAiD", "paid"));
    assert!(!eq_ignore_ascii_case("paid ", "paid"));
    assert!(!eq_ignore_ascii_case("pa\u{ef}d", "paid"));
    assert!(!eq_ignore_ascii_case("", "paid"));
    assert!(str_equal("abc", "abc"));
    assert!(!str_equal("abc", "abd"));
}

#[test]
fn unsigned_parsing_follows_std() {
    assert_eq!(parse_u64("42"), Some(42));
    assert_eq!(parse_u64("+7"), Some(7));
    assert_eq!(parse_u64("007"), Some(7));
    assert_eq!(parse_u64("-1"), None);
    assert_eq!(parse_u64(""), None);
    assert_eq!(parse_u64("+"), None);
    assert_eq!(parse_u64("1 2"), None);
    assert_eq!(parse_u64("18446744073709551615"), Some(u64::MAX));
    assert_eq!(parse_u64("18446744073709551616"), None);
    assert_eq!(parse_u64("99999999999999999999x"), None);
    for s in ["0", "12", "+3", "x", "", "184467440737095516150"] {
        assert_eq!(parse_u64(s), s.parse::<u64>().ok());
    }
}

#[test]
fn trimming_and_upper_case_come_from_std() {
    assert_eq!(connection_key(Some("  key \n".to_string())), Ok("key".to_string()));
    assert_eq!(connection_key(Some("\u{3000}x\u{3000}".to_string())), Ok("x".to_string()));
    assert_eq!(fmt_money(1, "usd"), "0.01 USD");
    assert_eq!(fmt_money(1, "stra\u{df}e"), "0.01 STRASSE");
}

#[test]
fn decimal_rendering() {
    let mut s = String::from("n=");
    push_decimal(&mut s, 0);
    assert_eq!(s, "n=0");
    let mut t = String::new();
    push_decimal(&mut t, u64::MAX);
    assert_eq!(t, "18446744073709551615");
}

#[test]
fn urls() {
    assert_eq!(base_url(false), "https://api.creem.io");
    assert_eq!(base_url(true), "https://test-api.creem.io");
    assert_eq!(
        search_url(true, 50),
        "https://test-api.creem.io/v1/transactions/search?page_number=1&page_size=50"
    );
    assert_eq!(
        search_url(false, 1),
        "https://api.creem.io/v1/transactions/search?page_number=1&page_size=1"
    );
}

#[test]
fn status_codes() {
    assert!(matches!(check_status(401, None), Err(CreemError::Unauthorized)));
    assert!(matches!(check_status(403, Some("5")), Err(CreemError::Unauthorized)));
    assert!(matches!(check_status(429, Some(" 12 ")), Err(CreemError::RateLimited(Some(12)))));
    assert!(matches!(check_status(429, Some("soon")), Err(CreemError::RateLimited(None))));
    assert!(matches!(check_status(429, None), Err(CreemError::RateLimited(None))));
    match check_status(500, None) {
        Err(CreemError::Network(m)) => assert_eq!(m, "HTTP 500"),
        _ => panic!("expected a network error"),
    }
    match check_status(302, None) {
        Err(CreemError::Network(m)) => assert_eq!(m, "HTTP 302"),
        _ => panic!("expected a network error"),
    }
    assert!(check_status(200, None).is_ok());
    assert!(check_status(204, None).is_ok());
    assert!(check_status(299, None).is_ok());
}

#[test]
fn envelope_fallbacks() {
    assert_eq!(envelope_key(true, true, true).unwrap(), "items");
    assert_eq!(envelope_key(false, true, true).unwrap(), "data");
    assert_eq!(envelope_key(false, false, true).unwrap(), "transactions");
    match envelope_key(false, false, false) {
        Err(CreemError::Decode(m)) => assert_eq!(m, "no items array in response"),
        _ => panic!("expected a decode error"),
    }
}

#[test]
fn error_messages() {
    assert_eq!(CreemError::Unauthorized.message(), "Invalid API key");
    assert_eq!(CreemError::RateLimited(Some(3)).message(), "Rate limited");
    assert_eq!(CreemError::Network("HTTP 500".to_string()).message(), "Network error: HTTP 500");
    assert_eq!(CreemError::Decode("bad".to_string()).message(), "Unexpected response: bad");
}
