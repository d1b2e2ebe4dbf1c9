use simple_bot::backtest::data::{
    build_candle_index, earliest_start, event_records, first_cursor, kline_url, next_cursor,
    price_at, slug_batches, tidy_records, window_timestamps, Candle, MarketRecord,
};
use simple_bot::backtest::report::{
    accuracy, accuracy_gates, comparison_rows, coverage, tally, tally_side, timing, Accuracy,
    AccuracyGate, Bucket, Coverage, Tally,
};
use simple_bot::backtest::simulate::{
    accuracy_at, check_times, checkpoints, favored, momentum_prices, simulate_market,
    simulate_market_bayesian, simulate_market_frontload, AccuracyRecord, BayesianParams,
    CheckPoint, FrontloadParams, SimPoint, SimTrade, StrategyParams, TradeOutcome, LEAST_EDGE,
    LEAST_KELLY,
};
use simple_bot::backtest::sweep::{
    bayesian_config, best_results, frontload_config, frontload_default, rank_results,
    sniper_config, volatility_at, worst_results, SweepResult, BAYESIAN_CONFIGS, FRONTLOAD_CONFIGS,
    SNIPER_CONFIGS, VOLATILITIES,
};
use simple_bot::cli::MarketWindow;
use simple_bot::figure::Figure;
use simple_bot::market::{Event, Market, UpOutOfRange};

fn f(x: f64) -> Figure {
    Figure::from_bits(x.to_bits())
}

fn x(v: Figure) -> f64 {
    f64::from_bits(v.bits)
}

fn record(slug: &str, start_ts: i64, up_won: bool) -> MarketRecord {
    MarketRecord { slug: slug.to_string(), start_ts, up_won }
}

fn candle(secs: i64, close: f64) -> Candle {
    Candle { open_time_ms: secs * 1000, open: f(0.0), close: f(close) }
}

fn decided(prices: &[f64], outcomes: &[&str]) -> Market {
    Market {
        id: String::new(),
        question: None,
        slug: None,
        condition_id: None,
        closed: Some(true),
        token_ids: vec![],
        outcomes: outcomes.iter().map(|s| s.to_string()).collect(),
        outcome_prices: prices.iter().map(|p| Some(f(*p))).collect(),
        best_bid: None,
        end: None,
    }
}

fn point(elapsed: i64, up: bool, prob: f64, ask: f64, edge: f64, kelly: f64) -> SimPoint {
    SimPoint {
        elapsed,
        up,
        prob: f(prob),
        ask: f(ask),
        edge: f(edge),
        kelly: f(kelly),
        win_pnl: f(5.0 / ask - 5.0),
        loss_pnl: f(-5.0),
    }
}

fn trade(elapsed: i64, up: bool, outcome: TradeOutcome) -> SimTrade {
    SimTrade {
        market_slug: "s".to_string(),
        side_up: up,
        model_prob: f(0.9),
        buy_price: f(0.8),
        edge: f(0.1),
        entry_elapsed: elapsed,
        outcome,
        pnl: f(1.0),
    }
}

fn result(config: usize, trades: usize, net_pnl: f64) -> SweepResult {
    SweepResult {
        config,
        trades,
        wins: 0,
        win_rate: f(0.0),
        net_pnl: f(net_pnl),
        avg_buy_price: f(0.9),
        pnl_per_trade: f(0.0),
    }
}

#[test]
fn windows_of_the_last_days_are_listed() {
    let now = 1_771_291_900;
    let all = window_timestamps(now, 1, MarketWindow::FiveMin);
    assert_eq!(all.len(), 289);
    assert_eq!(all[0], 1_771_205_400);
    assert_eq!(all[288], 1_771_291_800);
    let all = window_timestamps(now, 0, MarketWindow::FifteenMin);
    assert_eq!(all, vec![1_771_291_800]);
    assert!(window_timestamps(900, 0, MarketWindow::FifteenMin).is_empty());
}

#[test]
fn slugs_are_asked_for_in_fifties() {
    let all = window_timestamps(1_771_291_900, 1, MarketWindow::FiveMin);
    let batches = slug_batches(MarketWindow::FiveMin, &all);
    let sizes: Vec<usize> = batches.iter().map(|b| b.len()).collect();
    assert_eq!(sizes, vec![50, 50, 50, 50, 50, 39]);
    assert_eq!(batches[0][0], "btc-updown-5m-1771205400");
    assert_eq!(batches[5][38], "btc-updown-5m-1771291800");
    assert_eq!(batches[1][0], format!("btc-updown-5m-{}", all[50]));
    assert!(slug_batches(MarketWindow::FiveMin, &vec![]).is_empty());
}

#[test]
fn decided_markets_are_recorded() {
    let e = Event {
        slug: Some("btc-updown-5m-600".to_string()),
        markets: vec![
            decided(&[1.0, 0.0], &["Up", "Down"]),
            decided(&[0.5, 0.5], &["Up", "Down"]),
            decided(&[1.0, 0.0], &["Down", "Up"]),
            decided(&[1.0], &["Up", "Down"]),
            decided(&[0.0, 1.0], &[]),
            decided(&[0.9, 0.1], &["Up", "Down"]),
        ],
    };
    let r = event_records(&e).unwrap();
    let seen: Vec<(i64, bool)> = r.iter().map(|m| (m.start_ts, m.up_won)).collect();
    assert_eq!(seen, vec![(600, true), (600, false), (600, false), (600, false)]);
    assert_eq!(r[0].slug, "btc-updown-5m-600");
}

#[test]
fn events_without_a_time_are_skipped() {
    for slug in [None, Some("x"), Some("btc-updown-5m-0")] {
        let e = Event {
            slug: slug.map(|s| s.to_string()),
            markets: vec![decided(&[1.0, 0.0], &["A", "B", "Up"])],
        };
        assert!(event_records(&e).unwrap().is_empty());
    }
}

#[test]
fn a_decided_market_without_a_price_for_up_is_an_error() {
    let e = Event {
        slug: Some("a-600".to_string()),
        markets: vec![decided(&[1.0, 0.0], &["A", "B", "Up"])],
    };
    assert_eq!(event_records(&e).err(), Some(UpOutOfRange));
    let e = Event {
        slug: Some("a-600".to_string()),
        markets: vec![decided(&[0.5, 0.5], &["A", "B", "Up"])],
    };
    assert!(event_records(&e).unwrap().is_empty());
}

#[test]
fn records_are_sorted_and_repeats_dropped() {
    let r = tidy_records(&vec![
        record("c", 900, true),
        record("a", 300, true),
        record("b", 600, false),
        record("a", 300, false),
        record("x", 600, true),
        record("b", 600, true),
    ]);
    let seen: Vec<(&str, bool)> = r.iter().map(|m| (m.slug.as_str(), m.up_won)).collect();
    assert_eq!(seen, vec![("a", true), ("b", false), ("x", true), ("b", true), ("c", true)]);
    assert_eq!(earliest_start(&r), 300);
    assert_eq!(earliest_start(&vec![]), 0);
    assert_eq!(earliest_start(&vec![record("a", 9, true), record("b", 4, true)]), 4);
}

#[test]
fn candles_are_asked_for_page_by_page() {
    assert_eq!(first_cursor(1_771_205_400), Some(1_771_204_500_000));
    assert_eq!(first_cursor(0), Some(-900_000));
    assert_eq!(first_cursor(i64::MAX), None);
    assert_eq!(next_cursor(1000, 60_000, 1_000_000), Some(120_000));
    assert_eq!(next_cursor(0, 60_000, 1_000_000), None);
    assert_eq!(next_cursor(5, 940_000, 1_000_000), None);
    assert_eq!(
        kline_url(-900_000),
        "https://api.binance.com/api/v3/klines?symbol=BTCUSDT&interval=1m&startTime=-900000&limit=1000"
    );
}

#[test]
fn prices_are_those_of_the_minute_or_the_one_before() {
    let candles = vec![candle(600, 1.0), candle(660, 2.0), candle(660, 3.0), candle(780, 4.0)];
    let index = build_candle_index(&candles);
    assert_eq!(price_at(&candles, &index, 600), Some(f(1.0)));
    assert_eq!(price_at(&candles, &index, 659), Some(f(1.0)));
    assert_eq!(price_at(&candles, &index, 661), Some(f(3.0)));
    assert_eq!(price_at(&candles, &index, 720), Some(f(3.0)));
    assert_eq!(price_at(&candles, &index, 899), Some(f(4.0)));
    assert_eq!(price_at(&candles, &index, 900), None);
    assert_eq!(price_at(&candles, &index, 599), None);
    assert_eq!(price_at(&candles, &index, -30), None);
}

#[test]
fn candles_before_the_epoch_are_found_too() {
    let candles = vec![
        Candle { open_time_ms: -59_999, open: f(0.0), close: f(1.0) },
        Candle { open_time_ms: -60_000, open: f(0.0), close: f(2.0) },
    ];
    let index = build_candle_index(&candles);
    assert_eq!(price_at(&candles, &index, -60), Some(f(2.0)));
    assert_eq!(price_at(&candles, &index, 0), Some(f(2.0)));
}

#[test]
fn markets_are_looked_at_every_thirty_seconds() {
    assert_eq!(check_times(300), vec![30, 60, 90, 120, 150, 180, 210, 240, 270]);
    assert_eq!(check_times(900).len(), 29);
    assert_eq!(check_times(35), vec![30]);
    assert!(check_times(34).is_empty());
}

#[test]
fn the_course_of_a_market_has_the_prices_that_are_there() {
    let candles = vec![candle(600, 1.0), candle(780, 4.0)];
    let index = build_candle_index(&candles);
    let course = checkpoints(&record("a", 600, true), &candles, &index, 300).unwrap();
    assert_eq!(course.start, f(1.0));
    let seen: Vec<(i64, f64)> =
        course.points.iter().map(|p: &CheckPoint| (p.elapsed, x(p.price))).collect();
    assert_eq!(
        seen,
        vec![(30, 1.0), (60, 1.0), (90, 1.0), (180, 4.0), (210, 4.0), (240, 4.0), (270, 4.0)]
    );
    assert!(checkpoints(&record("a", 5_000, true), &candles, &index, 300).is_none());
}

#[test]
fn the_likelier_side_is_favored() {
    assert_eq!(favored(f(0.6), f(0.4)), (true, f(0.6)));
    assert_eq!(favored(f(0.5), f(0.5)), (false, f(0.5)));
    let r = accuracy_at(&record("a", 0, false), 90, f(0.2), f(0.8));
    assert_eq!(r, AccuracyRecord { elapsed_secs: 90, model_prob: f(0.8), correct: true });
}

#[test]
fn default_parameters_are_what_they_say() {
    let p = StrategyParams::default_with(f(50.0), f(5.0));
    assert_eq!(x(p.volatility), 50.0);
    assert_eq!(x(p.min_confidence), 0.90);
    assert_eq!(x(p.max_ask), 0.95);
    assert_eq!(p.min_elapsed_secs, 0);
    assert_eq!(x(p.market_lag), 0.03);
    assert_eq!(x(p.size), 5.0);
    let p = BayesianParams::default_with(f(5.0));
    assert_eq!(x(p.sensitivity), 8.0);
    assert_eq!(x(p.min_discrepancy), 0.03);
    assert_eq!(x(p.kelly_fraction), 0.25);
    assert_eq!(p.min_elapsed_secs, 0);
    assert_eq!(x(p.max_ask), 0.95);
    assert_eq!(x(p.market_lag), 0.03);
    let p = frontload_default(f(5.0));
    assert_eq!((p.lookback_secs, x(p.momentum_threshold), x(p.entry_price)), (300, 20.0, 0.5));
    assert_eq!(f64::from_bits(LEAST_EDGE), 0.005);
    assert_eq!(f64::from_bits(LEAST_KELLY), 0.01);
}

#[test]
fn the_sniper_trades_at_the_first_look_that_passes() {
    let mut p = StrategyParams::default_with(f(50.0), f(5.0));
    p.min_elapsed_secs = 60;
    let points = vec![
        point(30, true, 0.99, 0.9, 0.09, 0.0),
        point(60, true, 0.89, 0.8, 0.09, 0.0),
        point(90, false, 0.95, 0.96, 0.01, 0.0),
        point(120, true, 0.92, 0.917, 0.003, 0.0),
        point(150, true, 0.93, 0.91, 0.02, 0.0),
        point(180, true, 0.99, 0.91, 0.08, 0.0),
    ];
    let r = simulate_market(&record("a", 0, true), &points, &p);
    let t = r.trade.unwrap();
    assert_eq!(t.entry_elapsed, 150);
    assert_eq!(t.market_slug, "a");
    assert!(t.side_up);
    assert_eq!(t.outcome, TradeOutcome::Win);
    assert_eq!(x(t.pnl), 5.0 / 0.91 - 5.0);
    assert_eq!(x(t.buy_price), 0.91);
    assert_eq!(x(t.edge), 0.02);
    assert_eq!(r.model_correct_when_confident, Some(true));
    let r = simulate_market(&record("a", 0, false), &points, &p);
    let t = r.trade.unwrap();
    assert_eq!(t.outcome, TradeOutcome::Loss);
    assert_eq!(x(t.pnl), -5.0);
}

#[test]
fn the_sniper_remembers_when_its_model_was_confident() {
    let p = StrategyParams::default_with(f(50.0), f(5.0));
    let points = vec![
        point(30, true, 0.95, 0.96, 0.01, 0.0),
        point(60, false, 0.95, 0.96, 0.01, 0.0),
        point(90, true, 0.5, 0.5, 0.01, 0.0),
    ];
    let r = simulate_market(&record("a", 0, true), &points, &p);
    assert!(r.trade.is_none());
    assert_eq!(r.model_correct_when_confident, Some(false));
    let r = simulate_market(&record("a", 0, true), &vec![], &p);
    assert!(r.trade.is_none() && r.model_correct_when_confident.is_none());
}

#[test]
fn the_bayesian_strategy_trades_at_the_first_look_that_passes() {
    let mut p = BayesianParams::default_with(f(5.0));
    p.min_elapsed_secs = 60;
    let points = vec![
        point(30, true, 0.9, 0.8, 0.1, 0.1),
        point(60, true, 0.9, 0.88, 0.02, 0.1),
        point(90, true, 0.99, 0.95, 0.04, 0.1),
        point(120, true, 0.9, 0.8, 0.1, 0.009),
        point(150, false, 0.9, 0.8, 0.03, 0.01),
    ];
    let t = simulate_market_bayesian(&record("a", 0, false), &points, &p).unwrap();
    assert_eq!(t.entry_elapsed, 150);
    assert!(!t.side_up);
    assert_eq!(t.outcome, TradeOutcome::Win);
    assert!(simulate_market_bayesian(&record("a", 0, false), &vec![], &p).is_none());
}

#[test]
fn frontloading_follows_the_momentum() {
    let p = frontload_default(f(5.0));
    let (win, loss) = (f(5.0), f(-5.0));
    let t = simulate_market_frontload(&record("a", 0, false), f(-20.0), win, loss, &p).unwrap();
    assert!(!t.side_up);
    assert_eq!(t.outcome, TradeOutcome::Win);
    assert_eq!(t.pnl, win);
    assert_eq!(x(t.buy_price), 0.5);
    assert_eq!(x(t.model_prob), 0.5);
    assert_eq!(t.entry_elapsed, 0);
    let t = simulate_market_frontload(&record("a", 0, false), f(30.0), win, loss, &p).unwrap();
    assert_eq!((t.side_up, t.outcome, t.pnl), (true, TradeOutcome::Loss, loss));
    let none = simulate_market_frontload(&record("a", 0, true), f(19.9), win, loss, &p);
    assert!(none.is_none());
}

#[test]
fn momentum_needs_both_prices() {
    let candles = vec![candle(600, 1.0), candle(900, 4.0)];
    let index = build_candle_index(&candles);
    let m = record("a", 900, true);
    assert_eq!(momentum_prices(&m, &candles, &index, 300), Some((f(4.0), f(1.0))));
    assert_eq!(momentum_prices(&m, &candles, &index, 600), None);
    assert_eq!(momentum_prices(&record("a", 5_000, true), &candles, &index, 300), None);
}

#[test]
fn every_combination_of_the_sniper_is_tried_in_order() {
    let mut i = 0;
    for vol in [30.0, 50.0, 80.0, 120.0, 200.0] {
        for conf in [0.90, 0.93, 0.95, 0.97, 0.99] {
            for ask in [0.85, 0.88, 0.90, 0.92, 0.95] {
                for elapsed in [0, 120, 180, 210, 240] {
                    for lag in [0.02, 0.03, 0.05] {
                        let p = sniper_config(i, f(5.0));
                        assert_eq!(x(p.volatility), vol);
                        assert_eq!(x(p.min_confidence), conf);
                        assert_eq!(x(p.max_ask), ask);
                        assert_eq!(p.min_elapsed_secs, elapsed);
                        assert_eq!(x(p.market_lag), lag);
                        i += 1;
                    }
                }
            }
        }
    }
    assert_eq!(i, SNIPER_CONFIGS);
}

#[test]
fn every_combination_of_the_bayesian_strategy_is_tried_in_order() {
    let mut i = 0;
    for sens in [4.0, 8.0, 12.0, 16.0, 20.0] {
        for disc in [0.01, 0.03, 0.05, 0.08] {
            for elapsed in [0, 120, 180, 240] {
                for lag in [0.02, 0.03, 0.05] {
                    for ask in [0.85, 0.90, 0.95] {
                        let p = bayesian_config(i, f(5.0));
                        assert_eq!(x(p.sensitivity), sens);
                        assert_eq!(x(p.min_discrepancy), disc);
                        assert_eq!(x(p.kelly_fraction), 0.25);
                        assert_eq!(p.min_elapsed_secs, elapsed);
                        assert_eq!(x(p.market_lag), lag);
                        assert_eq!(x(p.max_ask), ask);
                        i += 1;
                    }
                }
            }
        }
    }
    assert_eq!(i, BAYESIAN_CONFIGS);
}

#[test]
fn every_combination_of_frontloading_is_tried_in_order() {
    let mut i = 0;
    for lookback in [60, 120, 180, 300, 600] {
        for threshold in [5.0, 10.0, 20.0, 50.0, 100.0] {
            for price in [0.48, 0.50, 0.52, 0.55] {
                let p: FrontloadParams = frontload_config(i, f(5.0));
                assert_eq!(p.lookback_secs, lookback);
                assert_eq!(x(p.momentum_threshold), threshold);
                assert_eq!(x(p.entry_price), price);
                i += 1;
            }
        }
    }
    assert_eq!(i, FRONTLOAD_CONFIGS);
}

#[test]
fn results_are_ranked_by_gain() {
    let results = vec![
        result(0, 25, -3.0),
        result(1, 19, 100.0),
        result(2, 20, 7.0),
        result(3, 30, 7.0),
        result(4, 22, 0.0),
        result(5, 22, -0.0),
        result(6, 22, 9.0),
        result(7, 5, f64::NAN),
    ];
    let ranked = rank_results(&results, 20);
    let order: Vec<usize> = ranked.iter().map(|r| r.config).collect();
    assert_eq!(order, vec![6, 2, 3, 4, 5, 0]);
    let top: Vec<usize> = best_results(&ranked, 2).iter().map(|r| r.config).collect();
    assert_eq!(top, vec![6, 2]);
    let bottom: Vec<usize> = worst_results(&ranked, 3).iter().map(|r| r.config).collect();
    assert_eq!(bottom, vec![0, 5, 4]);
    assert_eq!(best_results(&ranked, 99).len(), 6);
    assert_eq!(worst_results(&ranked, 99).len(), 6);
    assert!(rank_results(&results, 99).is_empty());
}

#[test]
fn a_single_result_needs_no_rank() {
    let results = vec![result(0, 25, f64::NAN), result(1, 19, 100.0)];
    let ranked = rank_results(&results, 20);
    assert_eq!(ranked.len(), 1);
    assert_eq!(ranked[0].config, 0);
}

#[test]
fn times_may_lie_far_off() {
    let candles = vec![];
    let index = build_candle_index(&candles);
    assert_eq!(price_at(&candles, &index, i64::MAX), None);
    assert_eq!(price_at(&candles, &index, i64::MIN + 68), None);
    assert!(checkpoints(&record("a", i64::MAX - 270, true), &candles, &index, 300).is_none());
    assert!(check_times(-5).is_empty());
}

#[test]
fn trades_and_wins_are_counted() {
    let trades = vec![
        trade(30, true, TradeOutcome::Win),
        trade(90, false, TradeOutcome::Loss),
        trade(119, true, TradeOutcome::Loss),
        trade(60, false, TradeOutcome::Win),
    ];
    assert_eq!(tally(&trades), Tally { trades: 4, wins: 2 });
    assert_eq!(tally_side(&trades, true), Tally { trades: 2, wins: 1 });
    assert_eq!(tally_side(&trades, false), Tally { trades: 2, wins: 1 });
    assert_eq!(tally(&vec![]), Tally { trades: 0, wins: 0 });
}

#[test]
fn entries_are_counted_by_the_minute() {
    let trades = vec![
        trade(90, false, TradeOutcome::Loss),
        trade(240, true, TradeOutcome::Win),
        trade(30, true, TradeOutcome::Win),
        trade(119, true, TradeOutcome::Win),
        trade(60, false, TradeOutcome::Loss),
    ];
    assert_eq!(
        timing(&trades),
        vec![
            Bucket { start: 0, total: 1, wins: 1 },
            Bucket { start: 60, total: 3, wins: 1 },
            Bucket { start: 240, total: 1, wins: 1 },
        ]
    );
    assert!(timing(&vec![]).is_empty());
}

#[test]
fn markets_with_prices_are_counted() {
    let candles = vec![candle(600, 1.0), candle(900, 4.0)];
    let index = build_candle_index(&candles);
    let markets =
        vec![record("a", 600, true), record("b", 900, false), record("c", 5_000, true)];
    assert_eq!(coverage(&markets, &candles, &index), Coverage { markets: 2, up_won: 1 });
}

#[test]
fn accuracy_is_reported_from_twenty_looks_on() {
    let mut records = vec![];
    for i in 0..30 {
        records.push(AccuracyRecord {
            elapsed_secs: 10 * i,
            model_prob: f(0.95),
            correct: i % 2 == 0,
        });
    }
    assert_eq!(accuracy(&records, 100, f(0.95)), Some(Accuracy { total: 20, correct: 10 }));
    assert_eq!(accuracy(&records, 101, f(0.95)), None);
    assert_eq!(accuracy(&records, 0, f(0.96)), None);
}

#[test]
fn accuracy_is_reported_for_sixteen_gates() {
    let mut expected = vec![];
    for elapsed in [60, 120, 180, 240] {
        for conf in [0.90, 0.95, 0.97, 0.99] {
            expected.push(AccuracyGate { min_elapsed: elapsed, min_confidence: f(conf) });
        }
    }
    assert_eq!(accuracy_gates(), expected);
    let vols: Vec<f64> = (0..VOLATILITIES).map(|i| f64::from_bits(volatility_at(i))).collect();
    assert_eq!(vols, vec![30.0, 50.0, 80.0, 120.0, 200.0]);
}

#[test]
fn strategies_are_compared_line_by_line() {
    let (a, b) = (result(1, 30, 1.0), result(2, 30, 2.0));
    let rows = comparison_rows(None, a, None, b, None, f(0.0));
    let labels: Vec<&str> = rows.iter().map(|r| r.label).collect();
    assert_eq!(labels, vec!["Sniper (current)", "Bayesian (default)"]);
    let rows = comparison_rows(Some(b), a, Some(a), b, Some(a), f(0.52));
    let labels: Vec<&str> = rows.iter().map(|r| r.label).collect();
    assert_eq!(
        labels,
        vec![
            "Sniper (best)",
            "Sniper (current)",
            "Bayesian (best)",
            "Bayesian (default)",
            "Frontload (best)"
        ]
    );
    assert_eq!(rows[0].result, b);
    assert_eq!(x(rows[4].result.avg_buy_price), 0.52);
    assert_eq!(rows[4].result.config, 1);
}

#[test]
fn tidy_records_have_slugs_of_their_own() {
    let records: Vec<MarketRecord> = [900, 600, 900, 300, 600, 900]
        .iter()
        .map(|ts| record(&format!("btc-updown-5m-{}", ts), *ts, true))
        .collect();
    let tidy = tidy_records(&records);
    let slugs: Vec<&str> = tidy.iter().map(|r| r.slug.as_str()).collect();
    assert_eq!(slugs, vec!["btc-updown-5m-300", "btc-updown-5m-600", "btc-updown-5m-900"]);
}
