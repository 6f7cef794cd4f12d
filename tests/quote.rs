use coin_dash::decimal::parse_fixed;
use coin_dash::quote::{parse_klines, samples_from_candles, JsonCell, QuoteError, TickerData};
use coin_dash::history::Sample;

#[test]
fn parses_plain_and_fractional_numbers() {
    assert_eq!(parse_fixed("1.5"), Some(150_000_000));
    assert_eq!(parse_fixed("42"), Some(4_200_000_000));
    assert_eq!(parse_fixed("-12.34"), Some(-1_234_000_000));
    assert_eq!(parse_fixed("0.00012300"), Some(12_300));
    assert_eq!(parse_fixed("007."), Some(700_000_000));
    assert_eq!(parse_fixed("99999999999999999999.99999999"), Some(9_999_999_999_999_999_999_999_999_999));
}

#[test]
fn rejects_malformed_numbers() {
    assert_eq!(parse_fixed(""), None);
    assert_eq!(parse_fixed("-"), None);
    assert_eq!(parse_fixed("."), None);
    assert_eq!(parse_fixed(".5"), None);
    assert_eq!(parse_fixed("abc"), None);
    assert_eq!(parse_fixed("1.2.3"), None);
    assert_eq!(parse_fixed("1e5"), None);
    assert_eq!(parse_fixed("1.123456789"), None);
    assert_eq!(parse_fixed("100000000000000000000"), None);
}

#[test]
fn ticker_from_text_reads_all_fields() {
    let t = TickerData::from_text("BTCUSDT", "65000.50", "-1.25", "66000", "64000.1", "12345.678").unwrap();
    assert_eq!(t.symbol, "BTCUSDT");
    assert_eq!(t.last_price, 6_500_050_000_000);
    assert_eq!(t.price_change_percent, -125_000_000);
    assert_eq!(t.high_price, 6_600_000_000_000);
    assert_eq!(t.low_price, 6_400_010_000_000);
    assert_eq!(t.volume, 1_234_567_800_000);
    let s = t.snapshot();
    assert_eq!(s.price, t.last_price);
    assert_eq!(s.volume_24h, t.volume);
}

#[test]
fn ticker_from_text_names_first_bad_field() {
    assert_eq!(TickerData::from_text("X", "x", "1", "1", "1", "1").err(), Some(QuoteError::LastPrice));
    assert_eq!(TickerData::from_text("X", "1", "x", "1", "1", "1").err(), Some(QuoteError::PriceChangePercent));
    assert_eq!(TickerData::from_text("X", "1", "1", "x", "x", "1").err(), Some(QuoteError::HighPrice));
    assert_eq!(TickerData::from_text("X", "1", "1", "1", "x", "1").err(), Some(QuoteError::LowPrice));
    assert_eq!(TickerData::from_text("X", "1", "1", "1", "1", "").err(), Some(QuoteError::Volume));
    assert_eq!(QuoteError::Volume.message(), "invalid number in volume");
}

fn int_cell(v: i64) -> JsonCell {
    JsonCell { as_int: Some(v), as_text: None }
}

fn text_cell(p: &str) -> JsonCell {
    JsonCell { as_int: None, as_text: Some(p.to_string()) }
}

fn candle(time: JsonCell, close: JsonCell) -> Vec<JsonCell> {
    vec![time, int_cell(0), int_cell(0), int_cell(0), close, int_cell(0)]
}

#[test]
fn malformed_candles_are_skipped() {
    let none = JsonCell { as_int: None, as_text: None };
    let rows = vec![
        candle(int_cell(1000), text_cell("1.5")),
        candle(text_cell("2000"), text_cell("2")),
        candle(int_cell(3000), int_cell(3)),
        candle(int_cell(4000), text_cell("bad")),
        vec![int_cell(4500), int_cell(0), int_cell(0), int_cell(0)],
        candle(none, text_cell("9")),
        candle(int_cell(5000), text_cell("3")),
    ];
    assert_eq!(
        samples_from_candles(&rows),
        vec![Sample { timestamp: 1000, price: 150_000_000 }, Sample { timestamp: 5000, price: 300_000_000 }]
    );
    assert_eq!(samples_from_candles(&Vec::new()), Vec::<Sample>::new());
}

#[test]
fn klines_body_is_reduced_to_samples() {
    let body = r#"[[1000,"1","2","0.5","1.5","10"],[2000,"x"],["bad",0,0,0,"3"],[4000,0,0,0,7]]"#;
    assert_eq!(parse_klines(body).unwrap(), vec![Sample { timestamp: 1000, price: 150_000_000 }]);
    assert_eq!(parse_klines("[]").unwrap(), Vec::<Sample>::new());
}

#[test]
fn klines_body_that_is_not_rows_is_an_error() {
    assert_eq!(parse_klines("not json").err(), Some(QuoteError::Body));
    assert_eq!(parse_klines(r#"{"a":1}"#).err(), Some(QuoteError::Body));
}

#[test]
fn klines_rows_with_wrong_kinds_are_skipped() {
    let body = r#"[[1000.5,0,0,0,"1"],[18446744073709551615,0,0,0,"1"],[-5,0,0,0,"2.25"],[6000,0,0,0]]"#;
    assert_eq!(parse_klines(body).unwrap(), vec![Sample { timestamp: -5, price: 225_000_000 }]);
}
