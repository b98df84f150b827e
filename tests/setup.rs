use candle_aggregator::config::{generate_urls, Settings};
use candle_aggregator::exchange::{ExchangeBuilder, ExchangeBuilderError, ExchangeFactory, ExchangeFactoryError};
use candle_aggregator::http_client::HttpClientError;
use candle_aggregator::kline::KlineParser;

fn settings(exchange: &str, poloniex: &str, binance: &str) -> Settings {
    Settings {
        exchange: exchange.to_string(),
        poloniex_rest_url_base: poloniex.to_string(),
        poloniex_rest_url_endpoint: "{base_url}/markets/{symbol}/candles?interval={timeframe}".to_string(),
        poloniex_ws_url: String::new(),
        binance_rest_url: binance.to_string(),
        binance_ws_url: String::new(),
        db_url: "klines.db".to_string(),
        symbols: vec!["BTC_USDT".to_string()],
        timeframes: vec!["MINUTE_1".to_string()],
    }
}

#[test]
fn urls_cover_every_symbol_and_timeframe() {
    let symbols = vec!["BTC_USDT".to_string(), "ETH_USDT".to_string()];
    let timeframes = vec!["MINUTE_1".to_string(), "HOUR_1".to_string()];
    let urls = generate_urls(
        "https://api.poloniex.com",
        "{base_url}/markets/{symbol}/candles?interval={timeframe}",
        &symbols,
        &timeframes,
    );
    assert_eq!(urls.len(), 4);
    assert_eq!(
        urls[0],
        (
            "BTC_USDT".to_string(),
            "MINUTE_1".to_string(),
            "https://api.poloniex.com/markets/BTC_USDT/candles?interval=MINUTE_1".to_string()
        )
    );
    assert_eq!(urls[1].2, "https://api.poloniex.com/markets/BTC_USDT/candles?interval=HOUR_1");
    assert_eq!(urls[2].0, "ETH_USDT");
    assert_eq!(urls[3].2, "https://api.poloniex.com/markets/ETH_USDT/candles?interval=HOUR_1");
    assert!(generate_urls("b", "e", &[], &timeframes).is_empty());
}

#[test]
fn factory_picks_rest_url_ignoring_case() {
    let b: ExchangeBuilder<u8, u8, u8> =
        ExchangeFactory::create(&settings("Poloniex", "https://api.poloniex.com", ""), 7).unwrap();
    assert_eq!(b.name.as_deref(), Some("Poloniex"));
    assert_eq!(b.rest_url.as_deref(), Some("https://api.poloniex.com"));
    assert_eq!(b.rest_client, Some(7));
    let b: ExchangeBuilder<u8, u8, u8> =
        ExchangeFactory::create(&settings("BINANCE", "", "https://api.binance.com"), 1).unwrap();
    assert_eq!(b.rest_url.as_deref(), Some("https://api.binance.com"));
}

#[test]
fn factory_reports_each_error() {
    let r = ExchangeFactory::create::<u8, u8, u8>(&settings("", "x", "y"), 0);
    assert!(matches!(r, Err(ExchangeFactoryError::MissingExchangeEnv)));
    let r = ExchangeFactory::create::<u8, u8, u8>(&settings("kraken", "x", "y"), 0);
    assert!(matches!(r, Err(ExchangeFactoryError::UnknownExchange())));
    let r = ExchangeFactory::create::<u8, u8, u8>(&settings("binance", "x", ""), 0);
    match r {
        Err(ExchangeFactoryError::MissingRestUrl(name)) => assert_eq!(name, "BINANCE"),
        _ => panic!("expected a missing REST URL"),
    }
}

#[test]
fn builder_reports_first_missing_part() {
    let b: ExchangeBuilder<u8, u8, u8> = ExchangeBuilder::new();
    assert_eq!(b.build().err(), Some(ExchangeBuilderError::MissingName));
    let b: ExchangeBuilder<u8, u8, u8> = ExchangeBuilder::new().set_name("poloniex");
    assert_eq!(b.build().err(), Some(ExchangeBuilderError::MissingRestUrl));
    let b: ExchangeBuilder<u8, u8, u8> = ExchangeBuilder::new().set_name("poloniex").set_rest_url("u");
    assert_eq!(b.build().err(), Some(ExchangeBuilderError::MissingRestClient));
    let b: ExchangeBuilder<u8, u8, u8> = ExchangeBuilder::new().set_name("poloniex").set_rest_url("u").set_rest_client(1);
    assert_eq!(b.build().err(), Some(ExchangeBuilderError::MissingParser));
    let b: ExchangeBuilder<u8, u8, u8> =
        ExchangeBuilder::new().set_name("poloniex").set_rest_url("u").set_rest_client(1).set_parser(KlineParser::new());
    assert_eq!(b.build().err(), Some(ExchangeBuilderError::MissingDBPool));
}

#[test]
fn builder_builds_with_optional_aggregator() {
    let b: ExchangeBuilder<u8, u8, u8> = ExchangeBuilder::new()
        .set_name("poloniex")
        .set_rest_url("u")
        .set_rest_client(1)
        .set_parser(KlineParser::new())
        .set_target_db(2);
    let e = b.build().ok().unwrap();
    assert_eq!(e.name, "poloniex");
    assert_eq!(e.rest_url, "u");
    assert_eq!(e.rest_client, 1);
    assert_eq!(e.db_pool, Some(2));
    assert_eq!(e.aggregator, None);
    let b: ExchangeBuilder<u8, u8, u8> = ExchangeBuilder::new()
        .set_name("poloniex")
        .set_rest_url("u")
        .set_rest_client(1)
        .set_parser(KlineParser::new())
        .set_target_db(2)
        .set_aggregator(3);
    assert_eq!(b.build().ok().unwrap().aggregator, Some(3));
}

#[test]
fn http_error_keeps_details() {
    let e = HttpClientError::new("timeout");
    assert_eq!(e.details(), "timeout");
}

#[test]
fn keys_follow_url_list() {
    let urls = vec![
        ("BTC_USDT".to_string(), "MINUTE_1".to_string(), "u1".to_string()),
        ("ETH_USDT".to_string(), "HOUR_1".to_string(), "u2".to_string()),
    ];
    let keys = candle_aggregator::config::keys_of_urls(&urls);
    assert_eq!(keys.len(), 2);
    assert_eq!(keys[1].symbol, "ETH_USDT");
    assert_eq!(keys[1].timeframe, "HOUR_1");
}

#[test]
fn list_entries_are_split_and_trimmed() {
    let v = candle_aggregator::config::split_list(" BTC_USDT , ETH_USDT,XRP_USDT ");
    assert_eq!(v, vec!["BTC_USDT".to_string(), "ETH_USDT".to_string(), "XRP_USDT".to_string()]);
    assert_eq!(candle_aggregator::config::split_list(""), vec![String::new()]);
    assert_eq!(candle_aggregator::config::split_list("a,"), vec!["a".to_string(), String::new()]);
}
