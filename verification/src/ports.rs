//! How the live service is run, and the strategy that never trades.
use vstd::prelude::*;

verus! {

/// Whether a run may place orders on the venue.
#[derive(Clone, Copy, Debug, PartialEq, Eq, Structural)]
pub enum RunMode {
    DryRun,
    Execute,
}

impl RunMode {
    pub fn from_execute(execute: bool) -> (mode: Self)
        ensures
            mode == (if execute { RunMode::Execute } else { RunMode::DryRun }),
    {
        if execute {
            RunMode::Execute
        } else {
            RunMode::DryRun
        }
    }

    /// Only an executing run sends orders.
    pub fn allows_trading(self) -> (r: bool)
        ensures
            r == (self == RunMode::Execute),
    {
        match self {
            RunMode::Execute => true,
            RunMode::DryRun => false,
        }
    }
}

/// A strategy that never asks for anything.
#[derive(Clone, Copy, Debug)]
pub struct NoopStrategy;

impl NoopStrategy {
    /// The commands for any market state: none.
    pub fn on_event<C>(&mut self) -> (r: Vec<C>)
        ensures
            r@.len() == 0,
    {
        Vec::new()
    }
}

} // verus!
