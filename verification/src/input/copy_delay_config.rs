//! How a train is copied with its times delayed.
use crate::input::rolling_stock_config::RollingStockConfig;
use vstd::prelude::*;

verus! {

/// The tasks of copying a train.
#[derive(PartialEq, Debug)]
pub struct CopyDelayConfig {
    pub tasks: Vec<CopyDelayTask>,
}

/// `count` copies of a train: the n-th with its times `n` times `delay` seconds later
/// and its numbers raised by `n` times `increment`; optionally with other rolling stock.
#[derive(PartialEq, Debug)]
pub struct CopyDelayTask {
    pub delay: i64,
    pub first_delay: Option<i64>,
    pub increment: i32,
    pub first_increment: Option<i32>,
    pub count: u32,
    pub custom_rolling_stock: Option<RollingStockConfig>,
}

} // verus!
