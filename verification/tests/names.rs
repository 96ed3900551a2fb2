use rstock::indicators::{
    boll_mid_column_name, bull_bear_line_column_name, d_column_name, j_column_name, k_column_name,
    ma_column_name, macd_dea_column_name, macd_dif_column_name, macd_hist_column_name,
    normalize_periods, normalized_periods, rsi_column_name, short_trend_column_name,
    volume_ma_column_name,
};

#[test]
fn indicator_column_names() {
    assert_eq!(ma_column_name(5), "ma_5");
    assert_eq!(volume_ma_column_name(20), "volume_ma_20");
    assert_eq!(macd_dif_column_name(12, 26), "macd_dif_12_26");
    assert_eq!(macd_dea_column_name(12, 26, 9), "macd_dea_12_26_9");
    assert_eq!(macd_hist_column_name(12, 26, 9), "macd_hist_12_26_9");
    assert_eq!(k_column_name(9, 3, 3), "k_9_3_3");
    assert_eq!(d_column_name(9, 3, 3), "d_9_3_3");
    assert_eq!(j_column_name(9, 3, 3), "j_9_3_3");
    assert_eq!(boll_mid_column_name(20), "boll_mid_20");
    assert_eq!(rsi_column_name(14), "rsi_14");
    assert_eq!(short_trend_column_name(3, 5), "short_trend_3_5");
    assert_eq!(bull_bear_line_column_name([14, 28, 57, 114]), "bull_bear_line_14_28_57_114");
}

#[test]
fn periods_are_positive_sorted_and_unique() {
    assert_eq!(normalized_periods(&[20, 0, 5, 20, 10, 5]), vec![5, 10, 20]);
    assert!(normalized_periods(&[0, 0]).is_empty());
    let mut v = vec![3, 1, 2, 1];
    normalize_periods(&mut v);
    assert_eq!(v, vec![1, 2, 3]);
    let once = normalized_periods(&[9, 3, 3]);
    assert_eq!(normalized_periods(&once), once);
}
