//! Advisor mode: the game state built from an advice request, and the hand
//! left after the advised discard.

use vstd::prelude::*;
use crate::state::{GameState, PlayerState, spec_new_state};
use crate::tile::Tile136;

verus! {

/// The state an advice request describes: a fresh game in which the bot
/// holds `hand`, with the dora indicators and the round wind when given, and
/// in riichi when the request says so.
pub fn advice_state(
    hand: Vec<Tile136>,
    dora_indicators: Option<Vec<Tile136>>,
    round_wind: Option<u8>,
    riichi: Option<bool>,
) -> (gs: GameState)
    ensures
        exists|fresh: GameState|
            {
                &&& spec_new_state(fresh, 0, 0)
                &&& gs == (GameState {
                    players: gs.players,
                    dora_indicators: gs.dora_indicators,
                    round_wind: gs.round_wind,
                    bot_riichi: gs.bot_riichi,
                    ..fresh
                })
                &&& forall|i: int| 1 <= i < 4 ==> #[trigger] gs.players[i] == fresh.players[i]
                &&& gs.players[0] == (PlayerState {
                    hand_136: gs.players[0].hand_136,
                    is_riichi: gs.players[0].is_riichi,
                    ..fresh.players[0]
                })
            },
        gs.bot_seat == 0,
        gs.players[0].hand_136@ == hand@,
        gs.dora_indicators@ == (match dora_indicators {
            Some(d) => d@,
            None => Seq::<Tile136>::empty(),
        }),
        gs.round_wind == (match round_wind {
            Some(w) => w,
            None => 27u8,
        }),
        gs.bot_riichi == (riichi == Some(true)),
        gs.players[0].is_riichi == (riichi == Some(true)),
{
    let mut state = GameState::new(0, 0);
    let ghost fresh = state;
    state.players[0].hand_136 = hand;
    if let Some(dora) = dora_indicators {
        state.dora_indicators = dora;
    }
    if let Some(rw) = round_wind {
        state.round_wind = rw;
    }
    if riichi == Some(true) {
        state.bot_riichi = true;
        state.players[0].is_riichi = true;
    }
    state
}

/// The index of the first copy of `t` in `h`, if any.
pub open spec fn first_index(h: Seq<Tile136>, t: Tile136) -> Option<int>
    decreases h.len(),
{
    if h.len() == 0 {
        None
    } else {
        match first_index(h.drop_last(), t) {
            Some(i) => Some(i),
            None => if h.last() == t {
                Some(h.len() - 1)
            } else {
                None
            },
        }
    }
}

/// The hand after discarding `tile`: exactly one copy (the first) leaves it.
pub fn hand_after(hand: &Vec<Tile136>, tile: Tile136) -> (r: Vec<Tile136>)
    ensures
        r@ == match first_index(hand@, tile) {
            Some(i) => hand@.remove(i),
            None => hand@,
        },
{
    let mut r: Vec<Tile136> = Vec::new();
    let mut i: usize = 0;
    while i < hand.len()
        invariant
            i <= hand@.len(),
            r@ == hand@.take(i as int),
            first_index(hand@.take(i as int), tile) is None,
        decreases hand@.len() - i,
    {
        assert(hand@.take(i + 1).drop_last() =~= hand@.take(i as int));
        if hand[i] == tile {
            proof {
                lemma_first_index_prefix(hand@, i + 1, tile);
            }
            let mut j = i + 1;
            while j < hand.len()
                invariant
                    i < j <= hand@.len(),
                    r@ == hand@.take(i as int) + hand@.subrange(i + 1, j as int),
                decreases hand@.len() - j,
            {
                r.push(hand[j]);
                assert(hand@.subrange(i + 1, j + 1) =~= hand@.subrange(i + 1, j as int).push(hand@[j as int]));
                j = j + 1;
            }
            assert(r@ =~= hand@.remove(i as int));
            return r;
        }
        r.push(hand[i]);
        assert(hand@.take(i + 1) =~= hand@.take(i as int).push(hand@[i as int]));
        i = i + 1;
    }
    assert(hand@.take(hand@.len() as int) =~= hand@);
    r
}

proof fn lemma_first_index_prefix(h: Seq<Tile136>, i: int, t: Tile136)
    requires
        0 <= i <= h.len(),
        first_index(h.take(i), t) is Some,
    ensures
        first_index(h, t) == first_index(h.take(i), t),
    decreases h.len() - i,
{
    if i < h.len() {
        assert(h.take(i + 1).drop_last() =~= h.take(i));
        lemma_first_index_prefix(h, i + 1, t);
    } else {
        assert(h.take(i) =~= h);
    }
}

} // verus!
