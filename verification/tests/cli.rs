use simple_bot::cli::{BacktestStrategy, MarketWindow};

#[test]
fn windows_have_lengths_and_prefixes() {
    assert_eq!(MarketWindow::FiveMin.secs(), 300);
    assert_eq!(MarketWindow::FifteenMin.secs(), 900);
    assert_eq!(MarketWindow::FiveMin.slug_prefix(), "btc-updown-5m");
    assert_eq!(MarketWindow::FifteenMin.slug_prefix(), "btc-updown-15m");
}

#[test]
fn only_all_compares() {
    let all = BacktestStrategy::All;
    assert!(all.runs_sniper() && all.runs_bayesian() && all.runs_frontload() && all.compares());
    let sniper = BacktestStrategy::Sniper;
    assert!(sniper.runs_sniper() && !sniper.runs_bayesian() && !sniper.runs_frontload());
    assert!(!sniper.compares());
    assert!(BacktestStrategy::Bayesian.runs_bayesian() && !BacktestStrategy::Bayesian.runs_sniper());
    assert!(
        BacktestStrategy::Frontload.runs_frontload() && !BacktestStrategy::Frontload.compares()
    );
}
