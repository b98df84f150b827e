use candle_aggregator::aggregator::CandleAggregator;
use candle_aggregator::batch::Batch;
use candle_aggregator::cache::LastValueCache;
use candle_aggregator::chain::{FilterChain, Handler, PersistJob};
use candle_aggregator::kline::{latest_kline, Key, Kline, VBS};

fn kline(pair: &str, time_frame: &str, utc_begin: i64, close: f64) -> Kline {
    Kline {
        pair: pair.to_string(),
        time_frame: time_frame.to_string(),
        o: 1.0f64.to_bits(),
        h: 2.0f64.to_bits(),
        l: 0.5f64.to_bits(),
        c: close.to_bits(),
        utc_begin,
        volume_bs: VBS {
            buy_base: 0.5f64.to_bits(),
            sell_base: 0.3f64.to_bits(),
            buy_quote: 15000.0f64.to_bits(),
            sell_quote: 9000.0f64.to_bits(),
        },
    }
}

fn batch_of(klines: Vec<Kline>) -> Batch {
    let mut b = Batch::new();
    for k in klines {
        b.push(k);
    }
    b
}

fn job_begins(job: &PersistJob) -> Vec<i64> {
    job.klines.iter().map(|k| k.utc_begin).collect()
}

#[test]
fn single_handler_claims_whole_group() {
    let mut agg = CandleAggregator::new();
    agg.build_handlers(&[Key::new("BTC", "1m")]);
    let mut chain = FilterChain::new();
    chain.add_handler(Handler::new(Key::new("BTC", "1m")));
    let mut batch = batch_of(vec![kline("BTC", "1m", 100, 1.0), kline("BTC", "1m", 160, 2.0)]);
    let jobs = chain.execute(&mut batch);
    assert!(batch.is_empty());
    assert_eq!(jobs.len(), 1);
    assert_eq!(jobs[0].key.symbol, "BTC");
    assert_eq!(jobs[0].key.timeframe, "1m");
    assert_eq!(job_begins(&jobs[0]), vec![100, 160]);
    let last = chain.get_last_kline(&Key::new("BTC", "1m")).unwrap();
    assert_eq!(last.utc_begin, 160);
    assert_eq!(f64::from_bits(last.c), 2.0);

    let jobs = agg.http_response_process(batch_of(vec![kline("BTC", "1m", 100, 1.0), kline("BTC", "1m", 160, 2.0)]));
    assert_eq!(jobs.len(), 1);
    assert_eq!(job_begins(&jobs[0]), vec![100, 160]);
    assert_eq!(agg.get_last_kline(&Key::new("BTC", "1m")).unwrap().utc_begin, 160);
}

#[test]
fn unmatched_group_stays_and_is_not_persisted() {
    let mut chain = FilterChain::new();
    chain.add_handler(Handler::new(Key::new("BTC", "1m")));
    let mut batch = batch_of(vec![kline("ETH", "5m", 300, 1.0)]);
    let jobs = chain.execute(&mut batch);
    assert!(jobs.is_empty());
    assert!(batch.contains_key(&Key::new("ETH", "5m")));
    assert!(!batch.is_empty());
    assert!(chain.get_last_kline(&Key::new("ETH", "5m")).is_none());
}

#[test]
fn second_handler_of_same_key_claims_nothing() {
    let first = Handler::new(Key::new("BTC", "1m"));
    let second = Handler::new(Key::new("BTC", "1m"));
    let mut batch = batch_of(vec![kline("BTC", "1m", 100, 1.0)]);
    let mut cache = LastValueCache::new();
    let mut jobs = Vec::new();
    assert!(first.handle(&mut batch, &mut cache, &mut jobs));
    assert!(!second.handle(&mut batch, &mut cache, &mut jobs));
    assert_eq!(jobs.len(), 1);
    assert!(batch.is_empty());

    let mut chain = FilterChain::new();
    chain.add_handler(Handler::new(Key::new("BTC", "1m")));
    chain.add_handler(Handler::new(Key::new("BTC", "1m")));
    let mut batch = batch_of(vec![kline("BTC", "1m", 100, 1.0)]);
    let jobs = chain.execute(&mut batch);
    assert_eq!(jobs.len(), 1);
}

#[test]
fn chain_claims_exactly_configured_keys() {
    let mut agg = CandleAggregator::new();
    agg.build_handlers(&[Key::new("BTC", "1m"), Key::new("ETH", "1m"), Key::new("XRP", "1h")]);
    let batch = batch_of(vec![
        kline("BTC", "1m", 10, 1.0),
        kline("ETH", "5m", 20, 1.0),
        kline("ETH", "1m", 30, 1.0),
        kline("BTC", "1m", 40, 1.0),
    ]);
    let jobs = agg.http_response_process(batch);
    let keys: Vec<(String, String)> =
        jobs.iter().map(|j| (j.key.symbol.clone(), j.key.timeframe.clone())).collect();
    assert_eq!(keys, vec![("BTC".to_string(), "1m".to_string()), ("ETH".to_string(), "1m".to_string())]);
    assert_eq!(job_begins(&jobs[0]), vec![10, 40]);
    assert_eq!(job_begins(&jobs[1]), vec![30]);
    assert!(agg.get_last_kline(&Key::new("ETH", "5m")).is_none());
    assert!(agg.get_last_kline(&Key::new("XRP", "1h")).is_none());
    assert_eq!(agg.get_last_kline(&Key::new("BTC", "1m")).unwrap().utc_begin, 40);
}

#[test]
fn rebuilding_twice_matches_one_rebuild() {
    let keys = [Key::new("BTC", "1m"), Key::new("ETH", "1m")];
    let mut once = CandleAggregator::new();
    once.build_handlers(&keys);
    let mut twice = CandleAggregator::new();
    twice.build_handlers(&keys);
    twice.build_handlers(&keys);
    let make = || batch_of(vec![kline("BTC", "1m", 1, 1.0), kline("ETH", "1m", 2, 1.0), kline("BTC", "1m", 3, 1.0)]);
    let a = once.http_response_process(make());
    let b = twice.http_response_process(make());
    assert_eq!(a.len(), 2);
    assert_eq!(b.len(), 2);
    assert_eq!(job_begins(&a[0]), job_begins(&b[0]));
    assert_eq!(job_begins(&a[1]), job_begins(&b[1]));
}

#[test]
fn rebuild_replaces_previous_handlers() {
    let mut agg = CandleAggregator::new();
    agg.build_handlers(&[Key::new("BTC", "1m")]);
    agg.build_handlers(&[Key::new("ETH", "1m")]);
    let jobs = agg.http_response_process(batch_of(vec![kline("BTC", "1m", 1, 1.0), kline("ETH", "1m", 2, 1.0)]));
    assert_eq!(jobs.len(), 1);
    assert_eq!(jobs[0].key.symbol, "ETH");
}

#[test]
fn cache_keeps_later_candle_in_either_order() {
    let key = Key::new("BTC", "1m");
    let mut a = LastValueCache::new();
    a.update(key.clone(), kline("BTC", "1m", 100, 1.0));
    a.update(key.clone(), kline("BTC", "1m", 200, 2.0));
    let mut b = LastValueCache::new();
    b.update(key.clone(), kline("BTC", "1m", 200, 2.0));
    b.update(key.clone(), kline("BTC", "1m", 100, 1.0));
    assert_eq!(a.get(&key).unwrap().utc_begin, 200);
    assert_eq!(b.get(&key).unwrap().utc_begin, 200);
    assert_eq!(f64::from_bits(b.get(&key).unwrap().c), 2.0);
}

#[test]
fn cache_accepts_equal_period_and_starts_absent() {
    let key = Key::new("BTC", "1m");
    let mut c = LastValueCache::new();
    assert!(c.get(&key).is_none());
    c.update(key.clone(), kline("BTC", "1m", 100, 1.0));
    c.update(key.clone(), kline("BTC", "1m", 100, 3.0));
    assert_eq!(f64::from_bits(c.get(&key).unwrap().c), 3.0);
    assert!(c.get(&Key::new("BTC", "5m")).is_none());
}

#[test]
fn chain_never_regresses_cache() {
    let mut chain = FilterChain::new();
    chain.add_handler(Handler::new(Key::new("BTC", "1m")));
    let mut first = batch_of(vec![kline("BTC", "1m", 500, 1.0)]);
    chain.execute(&mut first);
    let mut second = batch_of(vec![kline("BTC", "1m", 100, 1.0)]);
    let jobs = chain.execute(&mut second);
    assert_eq!(jobs.len(), 1);
    assert_eq!(chain.get_last_kline(&Key::new("BTC", "1m")).unwrap().utc_begin, 500);
    chain.update_last_kline(Key::new("BTC", "1m"), kline("BTC", "1m", 900, 1.0));
    assert_eq!(chain.get_last_kline(&Key::new("BTC", "1m")).unwrap().utc_begin, 900);
}

#[test]
fn empty_group_is_claimed_without_cache_entry() {
    let mut chain = FilterChain::new();
    chain.add_handler(Handler::new(Key::new("BTC", "1m")));
    let mut batch = Batch::new();
    let jobs = chain.execute(&mut batch);
    assert!(jobs.is_empty());
    assert!(batch.is_empty());
}

#[test]
fn latest_prefers_last_of_equal_periods() {
    let klines = vec![kline("BTC", "1m", 100, 1.0), kline("BTC", "1m", 160, 2.0), kline("BTC", "1m", 160, 3.0), kline("BTC", "1m", 120, 4.0)];
    let last = latest_kline(&klines).unwrap();
    assert_eq!(last.utc_begin, 160);
    assert_eq!(f64::from_bits(last.c), 3.0);
    assert!(latest_kline(&Vec::new()).is_none());
}

#[test]
fn batch_groups_by_key_in_order() {
    let batch = Batch::from_klines(vec![kline("BTC", "1m", 1, 1.0), kline("ETH", "1m", 2, 1.0), kline("BTC", "1m", 3, 1.0)]);
    assert!(batch.contains_key(&Key::new("BTC", "1m")));
    assert!(batch.contains_key(&Key::new("ETH", "1m")));
    assert!(!batch.contains_key(&Key::new("BTC", "5m")));
    let mut batch = batch;
    let btc = batch.remove(&Key::new("BTC", "1m")).unwrap();
    assert_eq!(btc.iter().map(|k| k.utc_begin).collect::<Vec<_>>(), vec![1, 3]);
    assert!(batch.remove(&Key::new("BTC", "1m")).is_none());
    assert!(!batch.is_empty());
}

#[test]
fn keys_compare_by_value() {
    assert!(Key::new("BTC", "1m").same_as(&Key::new("BTC", "1m")));
    assert!(!Key::new("BTC", "1m").same_as(&Key::new("BTC", "5m")));
    let k = kline("ETH", "5m", 1, 1.0).key();
    assert_eq!(k.symbol, "ETH");
    assert_eq!(k.timeframe, "5m");
}
