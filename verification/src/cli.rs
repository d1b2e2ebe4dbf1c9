//! What the command line chooses between.

use vstd::prelude::*;

verus! {

/// How long a market runs.
#[derive(Clone, Copy, Debug, PartialEq, Eq, Structural)]
pub enum MarketWindow {
    /// 5-minute BTC up/down markets.
    FiveMin,
    /// 15-minute BTC up/down markets.
    FifteenMin,
}

impl MarketWindow {
    pub open spec fn length(self) -> int {
        match self {
            MarketWindow::FiveMin => 300,
            MarketWindow::FifteenMin => 900,
        }
    }

    pub open spec fn prefix(self) -> Seq<char> {
        match self {
            MarketWindow::FiveMin => "btc-updown-5m"@,
            MarketWindow::FifteenMin => "btc-updown-15m"@,
        }
    }

    /// The length in seconds.
    pub fn secs(self) -> (r: i64)
        ensures
            r == self.length(),
    {
        match self {
            MarketWindow::FiveMin => 300,
            MarketWindow::FifteenMin => 900,
        }
    }

    /// What the slug of every such market begins with.
    pub fn slug_prefix(self) -> (r: &'static str)
        ensures
            r@ == self.prefix(),
    {
        match self {
            MarketWindow::FiveMin => "btc-updown-5m",
            MarketWindow::FifteenMin => "btc-updown-15m",
        }
    }
}

/// Which strategies a backtest runs.
#[derive(Clone, Copy, Debug, PartialEq, Eq, Structural)]
pub enum BacktestStrategy {
    /// Oracle sniper only.
    Sniper,
    /// Bayesian only.
    Bayesian,
    /// Frontloading: buy at market open using pre-market BTC momentum.
    Frontload,
    /// All strategies and a head-to-head comparison.
    All,
}

impl BacktestStrategy {
    pub fn runs_sniper(self) -> (r: bool)
        ensures
            r == (self is Sniper || self is All),
    {
        match self {
            BacktestStrategy::Sniper | BacktestStrategy::All => true,
            _ => false,
        }
    }

    pub fn runs_bayesian(self) -> (r: bool)
        ensures
            r == (self is Bayesian || self is All),
    {
        match self {
            BacktestStrategy::Bayesian | BacktestStrategy::All => true,
            _ => false,
        }
    }

    pub fn runs_frontload(self) -> (r: bool)
        ensures
            r == (self is Frontload || self is All),
    {
        match self {
            BacktestStrategy::Frontload | BacktestStrategy::All => true,
            _ => false,
        }
    }

    /// The comparison is printed only where every strategy ran.
    pub fn compares(self) -> (r: bool)
        ensures
            r == (self is All),
    {
        match self {
            BacktestStrategy::All => true,
            _ => false,
        }
    }
}

/// Which strategy trades.
#[derive(Clone, Copy, Debug, PartialEq, Eq, Structural)]
pub enum Strategy {
    /// Bayesian: 4 feeds, posterior, >3% edge, quarter-Kelly sizing.
    Bayesian,
    /// Sniper: buy the side that a price model favours late in the window.
    Sniper,
    /// Arbitrage: YES+NO != $1, both legs in parallel.
    Arbitrage,
    /// Frontload: buy at market open using pre-market BTC momentum.
    Frontload,
}

} // verus!
