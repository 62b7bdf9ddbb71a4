//! Configuration records for the Tenhou bot: the account and the game
//! preferences read from the configuration file.

use vstd::prelude::*;

verus! {

/// The Tenhou account.
pub struct AccountConfig {
    /// Tenhou user ID (registered account)
    pub user_id: String,
}

/// Game preferences.
pub struct GameConfig {
    /// Lobby type:
    /// 0 = 一般 (general)
    /// 1 = 上級 (upper)
    /// 2 = 特上 (superior)
    /// 3 = 鳳凰 (phoenix)
    pub lobby: u8,
    /// Game type bitmask:
    /// - 0: Tonpuusen (east only), aka-ari, open tanyao allowed
    /// - 1: Tonnansen (east+south), aka-ari, open tanyao allowed
    pub game_type: u8,
    /// How many games to play before stopping (0 = unlimited)
    pub max_games: u32,
    /// Seconds to wait for matchmaking before retrying (0 = wait forever)
    pub search_timeout_secs: u64,
}

} // verus!
