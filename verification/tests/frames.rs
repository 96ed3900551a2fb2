use rstock::frames::{
    daily_partition_keys, frame_symbols, latest_rows_by_symbol_time, partition_rows,
    sort_rows_by_symbol_time, trade_date_exchange_keys,
};

fn opt(v: &[Option<&str>]) -> Vec<Option<String>> {
    v.iter().map(|o| o.map(String::from)).collect()
}

fn key(parts: &[&str]) -> Option<Vec<String>> {
    Some(parts.iter().map(|p| p.to_string()).collect())
}

#[test]
fn latest_rows_skip_missing_keys_and_keep_last() {
    let symbols = opt(&[Some("B"), Some("A"), None, Some("A"), Some("B")]);
    let times = opt(&[Some("t1"), Some("t2"), Some("t1"), Some("t2"), Some("t0")]);
    assert_eq!(latest_rows_by_symbol_time(&symbols, &times), vec![3, 4, 0]);
}

#[test]
fn rows_partition_by_key_in_key_order() {
    let keys = vec![key(&["2026-05-21", "SZ"]), key(&["2026-05-20", "SZ"]), None, key(&["2026-05-21", "SZ"]), key(&["2026-05-20", "SH"])];
    let groups = partition_rows(&keys);
    let got: Vec<(Vec<String>, Vec<usize>)> = groups.into_iter().map(|g| (g.key, g.rows)).collect();
    assert_eq!(
        got,
        vec![
            (key(&["2026-05-20", "SH"]).unwrap(), vec![4]),
            (key(&["2026-05-20", "SZ"]).unwrap(), vec![1]),
            (key(&["2026-05-21", "SZ"]).unwrap(), vec![0, 3]),
        ]
    );
}

#[test]
fn distinct_symbols_are_sorted() {
    assert_eq!(
        frame_symbols(&opt(&[Some("b"), None, Some("a"), Some("b")])),
        vec!["a".to_string(), "b".to_string()]
    );
}

#[test]
fn keys_from_columns() {
    assert_eq!(
        trade_date_exchange_keys(&opt(&[Some("d"), None]), &opt(&[Some("SZ"), Some("SH")])),
        vec![key(&["d", "SZ"]), None]
    );
    assert_eq!(
        daily_partition_keys(&opt(&[Some("SZ"), Some("SH"), None]), &opt(&[Some("2026-05-20"), Some("2026"), Some("2026-05-20")])),
        vec![key(&["SZ", "2026", "05"]), None, None]
    );
}

#[test]
fn rows_sort_stably_by_symbol_then_time() {
    let symbols = opt(&[Some("B"), None, Some("A"), Some("B"), Some("A")]);
    let times = opt(&[Some("t1"), Some("t9"), Some("t2"), Some("t1"), Some("t1")]);
    assert_eq!(sort_rows_by_symbol_time(&symbols, &times), vec![1, 4, 2, 0, 3]);
}
