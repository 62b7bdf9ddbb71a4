//! AI interface: the decisions a playing strategy makes, and the records it
//! hands back.

use vstd::prelude::*;
use crate::state::GameState;
use crate::tile::Tile136;

verus! {

/// The main AI trait. Implement this to customize the bot's behavior.
///
/// The rule-based `TacticsAi` of the tactics module provides every decision
/// but the choice of discard, which weighs its evaluations with real-valued
/// weights; a strategy combines the two.
pub trait AiStrategy {
    /// Choose which tile to discard.
    /// Called when it's the bot's turn and no meld/riichi/tsumo was chosen.
    fn choose_discard(&self, state: &GameState) -> Tile136;

    /// Decide whether to call riichi after drawing.
    /// Returns (should_riichi, tile_to_discard_if_riichi).
    fn should_riichi(&self, state: &GameState) -> (bool, Option<Tile136>);

    /// Decide whether to call a kan.
    /// `drawn_tile` is the tile just drawn.
    /// `from_opponent` is whether this kan would use an opponent's discard.
    /// Returns (kan_type, tile_to_kan).
    /// kan_type: 0=none, 1=ankan(from hand), 2=daiminkan(from discard), 3=kakan(add to pon)
    fn should_call_kan(&self, state: &GameState, drawn_tile: Tile136, from_opponent: bool) -> (u8, Option<Tile136>);

    /// Decide whether to call a meld (chi/pon) on an opponent's discard.
    /// `discard_tile` is what was just discarded.
    /// `can_chi` is whether chi is possible (only from kamicha / left player).
    /// Returns the meld to call, or None to pass.
    fn try_call_meld(&self, state: &GameState, discard_tile: Tile136, can_chi: bool) -> Option<MeldDecision>;

    /// Decide whether to declare tsumo (win by self-draw).
    fn should_tsumo(&self, state: &GameState) -> bool;

    /// Decide whether to declare ron (win by opponent's discard).
    fn should_ron(&self, state: &GameState, discard_tile: Tile136) -> bool;

    /// Decide whether to declare kyushu kyuhai (9 terminals: abortive draw).
    fn should_kyushu_kyuhai(&self, state: &GameState) -> bool;
}

/// Decision for calling a meld
#[derive(Debug, Clone)]
pub struct MeldDecision {
    /// Type of meld: 1=pon, 3=chi, 2=daiminkan
    pub meld_type: u8,
    /// Tiles from hand to include (in 136 format)
    pub hand_tiles: Vec<Tile136>,
    /// Which tile to discard after calling the meld
    pub discard_after: Tile136,
}

/// A meld decision as plain values: type, hand tiles, discard.
pub open spec fn decision_view(d: MeldDecision) -> (u8, Seq<Tile136>, Tile136) {
    (d.meld_type, d.hand_tiles@, d.discard_after)
}

/// Pre-computed evaluation of one possible discard.
///
/// Besides the tile-efficiency figures it records the facts a strategy's own
/// scoring adjusts for: whether the discard breaks the hand's only pair,
/// whether the tile is a dora, and whether the bot is defending (an opponent
/// is in riichi and folding is enabled).
#[derive(Debug, Clone, Copy, PartialEq, Eq, Structural)]
pub struct DiscardEval {
    /// The tile to discard (136 format)
    pub tile: Tile136,
    /// Shanten number after discarding this tile
    pub shanten: i8,
    /// Number of tiles that would improve shanten
    pub ukeire: u32,
    /// Number of dora in hand after discarding
    pub dora_count: usize,
    /// Whether this tile is "dangerous" (might deal into an opponent)
    pub is_dangerous: bool,
    /// The tile is one of a pair and the hand holds no other pair
    pub breaks_only_pair: bool,
    /// The tile is a dora or a red five
    pub is_dora: bool,
    /// Some player is in riichi and the tactics fold against riichi
    pub defending: bool,
}

} // verus!
