//! A per-wallet score ledger with an anti-cheat gate and a read-only
//! leaderboard view.
//!
//! The core is the score-submission state machine: the rules that decide
//! whether a submitted score is accepted, how an accepted submission mutates
//! the per-player record, and the invariants that hold afterwards (monotonic
//! high score, mandatory replay evidence for new records, bounded replay
//! size). Registration applies display-name changes, and the leaderboard
//! projector ranks the stored records without mutating them.

mod contract;
mod service;
mod state;
mod text;

pub use contract::{
    register_update, save_score_update, ContractError, CrossyChainContract, Message, Operation,
};
pub use service::{register_precheck, LeaderboardEntry};
pub use state::{CrossyChainState, PlayerData, PlayerDataView};
pub use text::{is_wspace, trim_spec, trim_str};

use vstd::prelude::*;

verus! {

/// Marker type for the application's call surface: two mutation entry points
/// (save a score, register a player) and three read operations (leaderboard,
/// single player lookup, player count).
pub struct CrossyChainAbi;

} // verus!
