use rstock::symbols::{is_hsa_a_share, normalize_base_url};

#[test]
fn normalize_base_url_adds_http_scheme_when_missing() {
    assert_eq!(
        normalize_base_url("103.85.227.158:40003"),
        "http://103.85.227.158:40003"
    );
}

#[test]
fn normalize_base_url_preserves_existing_scheme() {
    assert_eq!(
        normalize_base_url("https://103.85.227.158:40003"),
        "https://103.85.227.158:40003"
    );
}

#[test]
fn hs_a_share_filter_accepts_shenzhen_and_shanghai() {
    assert!(is_hsa_a_share("600000.SH"));
    assert!(is_hsa_a_share("000001.SZ"));
}

#[test]
fn hs_a_share_filter_rejects_beijing_exchange() {
    assert!(!is_hsa_a_share("830799.BJ"));
}

use rstock::symbols::{
    hs_a_share_codes, is_code, is_market, likely_code, normalize_symbol, parse_exchange, split_symbol,
    SymbolError,
};

#[test]
fn hs_a_share_filter_covers_prefixes_and_bare_codes() {
    assert!(is_hsa_a_share(" 688001.sh "));
    assert!(is_hsa_a_share("300750"));
    assert!(!is_hsa_a_share("900901.SH"));
    assert!(!is_hsa_a_share("60000.SH"));
    assert!(!is_hsa_a_share(""));
}

#[test]
fn normalize_base_url_trims_before_checking_scheme() {
    assert_eq!(normalize_base_url("  http://host:1  "), "http://host:1");
    assert_eq!(normalize_base_url(" host:1 "), "http://host:1");
}

#[test]
fn hs_a_share_codes_are_sorted_unique_and_filtered() {
    let codes: Vec<String> = vec!["600000.SH", "000001.SZ", "830799.BJ", "600000.SH", "300750.SZ"]
        .into_iter()
        .map(String::from)
        .collect();
    assert_eq!(
        hs_a_share_codes(&codes),
        vec!["000001.SZ".to_string(), "300750.SZ".to_string(), "600000.SH".to_string()]
    );
    assert!(hs_a_share_codes(&["830799.BJ".to_string()]).is_empty());
}

#[test]
fn normalize_symbol_accepts_six_digits_and_known_exchange() {
    assert_eq!(normalize_symbol(" 000001.sz "), Ok("000001.SZ".to_string()));
    assert_eq!(normalize_symbol("000001"), Err(SymbolError::MissingSeparator));
    assert_eq!(normalize_symbol("00001.SZ"), Err(SymbolError::InvalidCode));
    assert_eq!(normalize_symbol("000001.HK"), Err(SymbolError::InvalidExchange));
}

#[test]
fn split_symbol_reads_both_orders() {
    assert_eq!(split_symbol("000001.sz"), Some(("000001".to_string(), "SZ".to_string())));
    assert_eq!(split_symbol("SH.600000"), Some(("600000".to_string(), "SH".to_string())));
    assert_eq!(split_symbol("600000"), None);
    assert_eq!(split_symbol("600000.XX"), None);
}

#[test]
fn symbol_parts_are_recognised() {
    assert!(is_market(" bj "));
    assert!(!is_market("HK"));
    assert!(is_code(" 000001 "));
    assert!(!is_code(""));
    assert!(likely_code("000001.SZ"));
    assert!(!likely_code("000001.SZ.X"));
    assert!(!likely_code(".SZ"));
    assert_eq!(parse_exchange("000001.SZ"), Ok("SZ".to_string()));
    assert_eq!(parse_exchange("000001"), Err(SymbolError::MissingSeparator));
}
