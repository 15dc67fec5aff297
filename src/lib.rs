//! A quadratic-funding grant round engine: a registry of projects, funding
//! rounds over a subset of them with a matching pool, contribution tracking,
//! and the CLR allocation of the pool.

pub mod types;
pub mod matching;
pub mod contribution;
pub mod pallet;
pub mod rounds;
pub mod laws;

pub use types::{
    AccountId, Balance, BlockNumber, Contribution, Error, Event, Judgement, LedgerAccount, Origin,
    Project, ProjectIndex, Proposal, Round, RoundIndex, Transfer,
};
pub use pallet::{Config, GenesisConfig, Pallet};
pub use matching::{calculate_matching_funds, contribution_weight};
pub use contribution::{add_contribution, contribution_total};
