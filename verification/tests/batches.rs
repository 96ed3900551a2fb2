use rstock::batches::{chunked, missing_symbols, split_symbols_into_workers};
use rstock::order::{sort_strings, sorted_unique};

fn strs(v: &[&str]) -> Vec<String> {
    v.iter().map(|s| s.to_string()).collect()
}

#[test]
fn chunks_keep_order_and_size() {
    let s = strs(&["a", "b", "c", "d", "e"]);
    let c = chunked(&s, 2);
    assert_eq!(c, vec![strs(&["a", "b"]), strs(&["c", "d"]), strs(&["e"])]);
    assert_eq!(c.concat(), s);
    assert!(chunked(&[], 3).is_empty());
}

#[test]
fn workers_get_at_most_one_batch_each() {
    let s: Vec<String> = (0..25).map(|i| i.to_string()).collect();
    let b = split_symbols_into_workers(&s, 10);
    assert_eq!(b.len(), 9);
    assert!(b.iter().all(|x| x.len() <= 3));
    assert_eq!(b.concat(), s);
    assert_eq!(split_symbols_into_workers(&s, 0).len(), 1);
    assert!(split_symbols_into_workers(&[], 4).is_empty());
    assert_eq!(split_symbols_into_workers(&strs(&["a", "b"]), 10).len(), 2);
}

#[test]
fn missing_symbols_keep_request_order() {
    let req = strs(&["a", "b", "c", "b"]);
    let found = strs(&["c"]);
    assert_eq!(missing_symbols(&req, &found), strs(&["a", "b", "b"]));
}

#[test]
fn strings_sort_like_std() {
    let mut v = strs(&["b", "a", "ab", "", "B", "é"]);
    let mut expected = v.clone();
    expected.sort();
    sort_strings(&mut v);
    assert_eq!(v, expected);
    assert_eq!(sorted_unique(strs(&["b", "a", "b"])), strs(&["a", "b"]));
}
