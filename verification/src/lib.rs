//! Match rating engine for two-team competitive games.
//!
//! The library tracks finished matches and converts each one into updated
//! per-player skill estimates and cumulative win/loss/frag statistics.
//! Ratings follow a Bayesian two-team model in the Bradley-Terry family:
//! every player carries a skill mean and an uncertainty, both kept as
//! fixed-point integers in thousandths of a rating point so that all
//! arithmetic is exact and machine-checkable.

pub mod agdb;
pub mod backfill;
pub mod error;
pub mod fixer;
pub mod outcome;
pub mod processor;
pub mod rating;
pub mod settings;
pub mod store;
pub mod teams;
