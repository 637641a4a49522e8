//! Where the rolling stock of a train comes from.
use std::path::PathBuf;
use vstd::prelude::*;

verus! {

/// The train file whose vehicles a train takes.
#[derive(PartialEq, Debug)]
pub struct RollingStockConfig {
    pub path: PathBuf,
}

} // verus!
