//! Default tactics: the rule-based decision engine.
//!
//! The decision flow:
//! 1. Win if possible (tsumo/ron)
//! 2. Call meld if it significantly improves the hand
//! 3. Declare riichi if tenpai and conditions are good
//! 4. Discard the tile that maximizes tile efficiency

use vstd::prelude::*;
use crate::ai::{MeldDecision, DiscardEval, decision_view};
use crate::meld::{Meld, MeldType};
use crate::shanten::{calc_shanten_detailed, best_discard_for_shanten, best_discard_index, spec_shanten_info, spec_shanten, tile_counts, type_count, valid_hand, lemma_type_count_nonneg, lemma_remove_valid, remove_at};
use crate::state::{GameState, spec_indicator_to_dora, spec_is_safe_tile, is_safe_tile};
use crate::meld::types_of;
use crate::tile::{Tile136, Tile34, Suit, t136_to_t34, spec_t136_to_t34, tile34_suit, tile34_number, spec_tile34_suit, spec_tile34_number, tile34_is_yaochuu, spec_tile34_is_yaochuu, is_aka, spec_is_red_five};

verus! {

/// The default tactics-based AI: the rule parameters of its decisions.
pub struct TacticsAi {
    /// Minimum shanten improvement to call a meld. Default: 2 (only call if it
    /// reduces shanten by at least 2, unless already near tenpai)
    pub min_shanten_improve_for_meld: i8,
    /// Whether to call melds at all. Set to false for menzen-focused play.
    pub allow_melds: bool,
    /// Whether to declare riichi when tenpai. Set to false for dama-ten.
    pub allow_riichi: bool,
    /// Minimum ukeire for riichi (to avoid bad waits). Default: 4
    pub min_ukeire_for_riichi: u32,
    /// Whether to fold (play defensively) when an opponent is in riichi
    pub fold_against_riichi: bool,
}

impl Default for TacticsAi {
    fn default() -> (r: Self)
        ensures
            r.min_shanten_improve_for_meld == 2,
            r.allow_melds,
            r.allow_riichi,
            r.min_ukeire_for_riichi == 4,
            r.fold_against_riichi,
    {
        TacticsAi {
            min_shanten_improve_for_meld: 2,
            allow_melds: true,
            allow_riichi: true,
            min_ukeire_for_riichi: 4,
            fold_against_riichi: true,
        }
    }
}

/// The bot's hand.
pub open spec fn bot_hand(gs: GameState) -> Seq<Tile136> {
    gs.players[gs.bot_seat as int].hand_136@
}

/// Shanten of a hand.
pub open spec fn shanten_of(h: Seq<Tile136>) -> int {
    spec_shanten_info(tile_counts(h)).0
}

/// Ukeire of a hand.
pub open spec fn ukeire_of(h: Seq<Tile136>) -> int {
    spec_shanten_info(tile_counts(h)).2
}

/// The tile `best_discard_for_shanten` picks from a non-empty hand.
pub open spec fn best_discard_tile(h: Seq<Tile136>) -> Tile136 {
    h[best_discard_index(h, h.len() as int)]
}

/// Some meld is a chi, pon or open kan.
pub open spec fn has_open_meld(melds: Seq<Meld>) -> bool {
    exists|i: int|
        0 <= i < melds.len() && {
            let mt = (#[trigger] melds[i]).meld_type;
            mt == MeldType::Chi || mt == MeldType::Pon || mt == MeldType::Daiminkan
        }
}

/// What the tactics answer to a riichi opportunity: riichi only when allowed,
/// not already in riichi, closed (no open meld), tenpai with at least the
/// minimum ukeire, discarding the best tile for shanten.
pub open spec fn spec_should_riichi(ai: TacticsAi, gs: GameState) -> (bool, Option<Tile136>) {
    let h = bot_hand(gs);
    if !ai.allow_riichi || gs.bot_riichi {
        (false, None)
    } else if has_open_meld(gs.players[gs.bot_seat as int].melds@) {
        (false, None)
    } else if shanten_of(h) > 0 {
        (false, None)
    } else if ukeire_of(h) < ai.min_ukeire_for_riichi {
        (false, None)
    } else if h.len() == 0 {
        (false, None)
    } else {
        (true, Some(best_discard_tile(h)))
    }
}

/// Whether a call that takes shanten from `current` to `after` is worth it:
/// it improves shanten by the configured minimum, or by one when the hand
/// was already at one shanten or better.
pub open spec fn meld_worth(ai: TacticsAi, current: int, after: int) -> bool {
    let improvement = current - after;
    improvement >= ai.min_shanten_improve_for_meld || (current <= 1 && improvement >= 1)
}

/// Going through `h` in order, set aside the first two tiles of type `t`:
/// the tiles kept and the tiles set aside.
pub open spec fn pon_removal(h: Seq<Tile136>, t: int) -> (Seq<Tile136>, Seq<Tile136>)
    decreases h.len(),
{
    if h.len() == 0 {
        (seq![], seq![])
    } else {
        let (kept, taken) = pon_removal(h.drop_last(), t);
        if taken.len() < 2 && h.last() / 4 == t {
            (kept, taken.push(h.last()))
        } else {
            (kept.push(h.last()), taken)
        }
    }
}

/// Going through `h` in order, drop the first tile of type `t1` and the first
/// of type `t2`: the tiles kept and whether each was found.
pub open spec fn chi_removal(h: Seq<Tile136>, t1: int, t2: int) -> (Seq<Tile136>, bool, bool)
    decreases h.len(),
{
    if h.len() == 0 {
        (seq![], false, false)
    } else {
        let (kept, r1, r2) = chi_removal(h.drop_last(), t1, t2);
        let x = h.last();
        if !r1 && x / 4 == t1 {
            (kept, true, r2)
        } else if !r2 && x / 4 == t2 {
            (kept, r1, true)
        } else {
            (kept.push(x), r1, r2)
        }
    }
}

/// The first tile of type `t` in `h`.
pub open spec fn first_of_type(h: Seq<Tile136>, t: int) -> Option<Tile136>
    decreases h.len(),
{
    if h.len() == 0 {
        None
    } else {
        match first_of_type(h.drop_last(), t) {
            Some(x) => Some(x),
            None => if h.last() / 4 == t {
                Some(h.last())
            } else {
                None
            },
        }
    }
}

/// The hand after a pon on `tile`.
pub open spec fn pon_hand(h: Seq<Tile136>, tile: Tile136) -> Seq<Tile136> {
    pon_removal(h, tile as int / 4).0.push(tile)
}

/// The pon the tactics call on `tile`, if any: two tiles of its type in hand
/// and a worthwhile shanten gain; then discard the best tile for shanten.
pub open spec fn spec_pon_call(ai: TacticsAi, h: Seq<Tile136>, tile: Tile136) -> Option<
    (u8, Seq<Tile136>, Tile136),
> {
    let t = tile as int / 4;
    if type_count(h, t) >= 2 && meld_worth(ai, shanten_of(h), shanten_of(pon_hand(h, tile))) {
        Some((1u8, pon_removal(h, t).1, best_discard_tile(pon_hand(h, tile))))
    } else {
        None
    }
}

/// The numbers of the two hand tiles of chi pattern `k` around number `n`:
/// below-below, below-above, above-above.
pub open spec fn chi_pattern(n: int, k: int) -> (int, int) {
    if k == 0 {
        (n - 2, n - 1)
    } else if k == 1 {
        (n - 1, n + 1)
    } else {
        (n + 1, n + 2)
    }
}

/// The hand after a chi on `tile` with tiles of types `t1` and `t2`.
pub open spec fn chi_hand(h: Seq<Tile136>, t1: int, t2: int, tile: Tile136) -> Seq<Tile136> {
    chi_removal(h, t1, t2).0.push(tile)
}

/// The chi on the number tile `tile` with pattern `k`, if that pattern lies
/// inside the suit, both its tile types are in hand, and the call gains
/// worthwhile shanten.
pub open spec fn spec_chi_at(ai: TacticsAi, h: Seq<Tile136>, tile: Tile136, k: int) -> Option<
    (u8, Seq<Tile136>, Tile136),
> {
    let t = spec_t136_to_t34(tile);
    let (n1, n2) = chi_pattern(spec_tile34_number(t) as int, k);
    let base = suit_base_of(t);
    let t1 = base + n1 - 1;
    let t2 = base + n2 - 1;
    if 1 <= n1 <= 9 && 1 <= n2 <= 9 && type_count(h, t1) > 0 && type_count(h, t2) > 0 && meld_worth(
        ai,
        shanten_of(h),
        shanten_of(chi_hand(h, t1, t2, tile)),
    ) {
        Some(
            (
                3u8,
                seq![first_of_type(h, t1)->0, first_of_type(h, t2)->0],
                best_discard_tile(chi_hand(h, t1, t2, tile)),
            ),
        )
    } else {
        None
    }
}

/// The chi the tactics call on the number tile `tile`, trying the patterns
/// from `k` on: the first that `spec_chi_at` accepts.
pub open spec fn spec_chi_call_from(ai: TacticsAi, h: Seq<Tile136>, tile: Tile136, k: int) -> Option<
    (u8, Seq<Tile136>, Tile136),
>
    decreases 3 - k,
{
    if k >= 3 || k < 0 {
        None
    } else {
        match spec_chi_at(ai, h, tile, k) {
            Some(d) => Some(d),
            None => spec_chi_call_from(ai, h, tile, k + 1),
        }
    }
}

/// First tile type of the suit of `t` (number suits only).
pub open spec fn suit_base_of(t: Tile34) -> int {
    if t <= 8 {
        0
    } else if t <= 17 {
        9
    } else {
        18
    }
}

/// The meld the tactics call on an opponent's discard: none when melds are
/// off or the bot is in riichi; else a pon if one is worth it, else (when
/// chi is possible on a number tile) the first worthwhile chi.
pub open spec fn spec_try_call_meld(ai: TacticsAi, gs: GameState, tile: Tile136, can_chi: bool) -> Option<
    (u8, Seq<Tile136>, Tile136),
> {
    let h = bot_hand(gs);
    if !ai.allow_melds || gs.bot_riichi {
        None
    } else {
        match spec_pon_call(ai, h, tile) {
            Some(d) => Some(d),
            None => if can_chi && spec_tile34_suit(spec_t136_to_t34(tile)) != Suit::Honor {
                spec_chi_call_from(ai, h, tile, 0)
            } else {
                None
            },
        }
    }
}

/// A hand and a called tile the meld evaluation can count: a valid hand, a
/// real tile, and room to add it without a tile type passing 127.
pub open spec fn callable(h: Seq<Tile136>, tile: Tile136) -> bool {
    &&& valid_hand(h)
    &&& tile < 136
    &&& type_count(h, tile as int / 4) <= 126
}

/// Number of tiles of `h` that are yaochuu (terminals and honors).
pub open spec fn yaochuu_count(h: Seq<Tile136>) -> int
    decreases h.len(),
{
    if h.len() == 0 {
        0
    } else {
        yaochuu_count(h.drop_last()) + (if spec_tile34_is_yaochuu(spec_t136_to_t34(h.last())) {
            1int
        } else {
            0int
        })
    }
}

/// Convert suit and number to tile34: `None` for honors and numbers outside 1-9.
pub open spec fn spec_suit_number_to_t34(suit: Suit, number: u8) -> Option<Tile34> {
    if number < 1 || number > 9 {
        None
    } else {
        match suit {
            Suit::Man => Some((number - 1) as Tile34),
            Suit::Pin => Some((9 + number - 1) as Tile34),
            Suit::Sou => Some((18 + number - 1) as Tile34),
            Suit::Honor => None,
        }
    }
}

/// Convert suit and number to tile34
pub fn suit_number_to_t34(suit: Suit, number: u8) -> (r: Option<Tile34>)
    ensures
        r == spec_suit_number_to_t34(suit, number),
{
    if number < 1 || number > 9 {
        return None;
    }
    match suit {
        Suit::Man => Some(number - 1),
        Suit::Pin => Some(9 + number - 1),
        Suit::Sou => Some(18 + number - 1),
        Suit::Honor => None,
    }
}

/// Number of tiles of type `t` in `h`.
pub(crate) fn count_type(h: &[Tile136], t: Tile34) -> (r: usize)
    ensures
        r == type_count(h@, t as int),
{
    let mut n: usize = 0;
    let mut i: usize = 0;
    while i < h.len()
        invariant
            i <= h@.len(),
            n == type_count(h@.take(i as int), t as int),
            n <= i,
        decreases h@.len() - i,
    {
        assert(h@.take(i + 1).drop_last() =~= h@.take(i as int));
        if h[i] / 4 == t as u16 {
            n = n + 1;
        }
        i = i + 1;
    }
    assert(h@.take(h@.len() as int) =~= h@);
    n
}

/// The first tile of type `t` in `h`.
fn find_type(h: &[Tile136], t: Tile34) -> (r: Option<Tile136>)
    ensures
        r == first_of_type(h@, t as int),
{
    let mut i: usize = 0;
    while i < h.len()
        invariant
            i <= h@.len(),
            first_of_type(h@.take(i as int), t as int) is None,
        decreases h@.len() - i,
    {
        assert(h@.take(i + 1).drop_last() =~= h@.take(i as int));
        if h[i] / 4 == t as u16 {
            proof {
                lemma_first_of_type_prefix(h@, i as int + 1, t as int);
            }
            return Some(h[i]);
        }
        i = i + 1;
    }
    assert(h@.take(h@.len() as int) =~= h@);
    None
}

proof fn lemma_first_of_type_prefix(h: Seq<Tile136>, i: int, t: int)
    requires
        0 <= i <= h.len(),
        first_of_type(h.take(i), t) is Some,
    ensures
        first_of_type(h, t) == first_of_type(h.take(i), t),
    decreases h.len() - i,
{
    if i < h.len() {
        assert(h.take(i + 1).drop_last() =~= h.take(i));
        lemma_first_of_type_prefix(h, i + 1, t);
    } else {
        assert(h.take(i) =~= h);
    }
}

/// The hand with the first two tiles of type `t` set aside, and those tiles.
fn split_for_pon(h: &[Tile136], t: Tile34) -> (r: (Vec<Tile136>, Vec<Tile136>))
    ensures
        (r.0@, r.1@) == pon_removal(h@, t as int),
{
    let mut kept: Vec<Tile136> = Vec::new();
    let mut taken: Vec<Tile136> = Vec::new();
    let mut i: usize = 0;
    while i < h.len()
        invariant
            i <= h@.len(),
            (kept@, taken@) == pon_removal(h@.take(i as int), t as int),
        decreases h@.len() - i,
    {
        assert(h@.take(i + 1).drop_last() =~= h@.take(i as int));
        let x = h[i];
        if taken.len() < 2 && x / 4 == t as u16 {
            taken.push(x);
        } else {
            kept.push(x);
        }
        i = i + 1;
    }
    assert(h@.take(h@.len() as int) =~= h@);
    (kept, taken)
}

/// The hand without the first tile of type `t1` and the first of type `t2`.
fn remove_for_chi(h: &[Tile136], t1: Tile34, t2: Tile34) -> (r: Vec<Tile136>)
    ensures
        r@ == chi_removal(h@, t1 as int, t2 as int).0,
{
    let mut kept: Vec<Tile136> = Vec::new();
    let mut removed_t1 = false;
    let mut removed_t2 = false;
    let mut i: usize = 0;
    while i < h.len()
        invariant
            i <= h@.len(),
            (kept@, removed_t1, removed_t2) == chi_removal(h@.take(i as int), t1 as int, t2 as int),
        decreases h@.len() - i,
    {
        assert(h@.take(i + 1).drop_last() =~= h@.take(i as int));
        let x = h[i];
        let tt = x / 4;
        if !removed_t1 && tt == t1 as u16 {
            removed_t1 = true;
        } else if !removed_t2 && tt == t2 as u16 {
            removed_t2 = true;
        } else {
            kept.push(x);
        }
        i = i + 1;
    }
    assert(h@.take(h@.len() as int) =~= h@);
    kept
}

proof fn lemma_type_count_push(h: Seq<Tile136>, x: Tile136, t: int)
    ensures
        type_count(h.push(x), t) == type_count(h, t) + (if x / 4 == t { 1int } else { 0int }),
{
    assert(h.push(x).drop_last() =~= h);
}

/// Beyond the real tiles no type is counted.
proof fn lemma_type_count_out_of_range(h: Seq<Tile136>, t: int)
    requires
        forall|i: int| 0 <= i < h.len() ==> #[trigger] h[i] < 136,
        t >= 34 || t < 0,
    ensures
        type_count(h, t) == 0,
    decreases h.len(),
{
    if h.len() > 0 {
        assert(h.last() == h[h.len() - 1]);
        lemma_type_count_out_of_range(h.drop_last(), t);
    }
}

proof fn lemma_pon_removal(h: Seq<Tile136>, t: int)
    ensures
        ({
            let (kept, taken) = pon_removal(h, t);
            &&& taken.len() == (if type_count(h, t) < 2 { type_count(h, t) } else { 2 })
            &&& kept.len() + taken.len() == h.len()
            &&& forall|u: int|
                #[trigger] type_count(kept, u) == type_count(h, u) - (if u == t { taken.len() as int } else { 0 })
            &&& (forall|i: int| 0 <= i < h.len() ==> #[trigger] h[i] < 136) ==> (forall|i: int|
                0 <= i < kept.len() ==> #[trigger] kept[i] < 136)
            &&& forall|i: int| 0 <= i < taken.len() ==> #[trigger] taken[i] / 4 == t
        }),
    decreases h.len(),
{
    if h.len() > 0 {
        let p = h.drop_last();
        lemma_pon_removal(p, t);
        lemma_type_count_nonneg(p, t);
        let (k0, t0) = pon_removal(p, t);
        let x = h.last();
        assert forall|u: int| #[trigger] type_count(pon_removal(h, t).0, u) == type_count(h, u) - (if u == t {
            pon_removal(h, t).1.len() as int
        } else {
            0
        }) by {
            lemma_type_count_push(k0, x, u);
            assert(type_count(h, u) == type_count(p, u) + (if x / 4 == u { 1int } else { 0int }));
        }
        if forall|i: int| 0 <= i < h.len() ==> #[trigger] h[i] < 136 {
            assert forall|i: int| 0 <= i < p.len() implies #[trigger] p[i] < 136 by {
                assert(p[i] == h[i]);
            }
            assert(x == h[h.len() - 1]);
        }
    }
}

proof fn lemma_chi_removal(h: Seq<Tile136>, t1: int, t2: int)
    requires
        t1 != t2,
    ensures
        ({
            let (kept, r1, r2) = chi_removal(h, t1, t2);
            &&& r1 == (type_count(h, t1) > 0)
            &&& r2 == (type_count(h, t2) > 0)
            &&& kept.len() == h.len() - (if r1 { 1int } else { 0int }) - (if r2 { 1int } else { 0int })
            &&& forall|u: int|
                #[trigger] type_count(kept, u) == type_count(h, u) - (if u == t1 && r1 { 1int } else { 0int }) - (
                if u == t2 && r2 {
                    1int
                } else {
                    0int
                })
            &&& (forall|i: int| 0 <= i < h.len() ==> #[trigger] h[i] < 136) ==> (forall|i: int|
                0 <= i < kept.len() ==> #[trigger] kept[i] < 136)
        }),
    decreases h.len(),
{
    if h.len() > 0 {
        let p = h.drop_last();
        lemma_chi_removal(p, t1, t2);
        lemma_type_count_nonneg(p, t1);
        lemma_type_count_nonneg(p, t2);
        let (k0, a, b) = chi_removal(p, t1, t2);
        let x = h.last();
        assert forall|u: int| #[trigger] type_count(chi_removal(h, t1, t2).0, u) == type_count(h, u) - (if u == t1
            && chi_removal(h, t1, t2).1 {
            1int
        } else {
            0int
        }) - (if u == t2 && chi_removal(h, t1, t2).2 {
            1int
        } else {
            0int
        }) by {
            lemma_type_count_push(k0, x, u);
            assert(type_count(h, u) == type_count(p, u) + (if x / 4 == u { 1int } else { 0int }));
        }
        if forall|i: int| 0 <= i < h.len() ==> #[trigger] h[i] < 136 {
            assert forall|i: int| 0 <= i < p.len() implies #[trigger] p[i] < 136 by {
                assert(p[i] == h[i]);
            }
            assert(x == h[h.len() - 1]);
        }
    }
}

proof fn lemma_pon_hand_valid(h: Seq<Tile136>, tile: Tile136)
    requires
        valid_hand(h),
        type_count(h, tile as int / 4) >= 2,
    ensures
        valid_hand(pon_hand(h, tile)),
        pon_hand(h, tile).len() == h.len() - 1,
{
    let t = tile as int / 4;
    lemma_pon_removal(h, t);
    let (kept, taken) = pon_removal(h, t);
    if t >= 34 {
        lemma_type_count_out_of_range(h, t);
    }
    let a = kept.push(tile);
    assert forall|i: int| 0 <= i < a.len() implies #[trigger] a[i] < 136 by {
        if i < kept.len() {
            assert(a[i] == kept[i]);
        }
    }
    assert forall|u: int| 0 <= u < 34 implies #[trigger] type_count(a, u) <= 127 by {
        lemma_type_count_push(kept, tile, u);
        assert(type_count(kept, u) == type_count(h, u) - (if u == t { taken.len() as int } else { 0 }));
    }
}

proof fn lemma_chi_hand_valid(h: Seq<Tile136>, t1: int, t2: int, tile: Tile136)
    requires
        valid_hand(h),
        t1 != t2,
        tile < 136,
        tile as int / 4 != t1,
        tile as int / 4 != t2,
        type_count(h, tile as int / 4) <= 126,
        type_count(h, t1) > 0,
        type_count(h, t2) > 0,
    ensures
        valid_hand(chi_hand(h, t1, t2, tile)),
        chi_hand(h, t1, t2, tile).len() == h.len() - 1,
{
    lemma_chi_removal(h, t1, t2);
    let (kept, r1, r2) = chi_removal(h, t1, t2);
    let a = kept.push(tile);
    assert forall|i: int| 0 <= i < a.len() implies #[trigger] a[i] < 136 by {
        if i < kept.len() {
            assert(a[i] == kept[i]);
        }
    }
    assert forall|u: int| 0 <= u < 34 implies #[trigger] type_count(a, u) <= 127 by {
        lemma_type_count_push(kept, tile, u);
        lemma_type_count_nonneg(h, u);
        assert(type_count(kept, u) == type_count(h, u) - (if u == t1 && r1 { 1int } else { 0int }) - (if u
            == t2 && r2 {
            1int
        } else {
            0int
        }));
    }
}

/// Number of tiles of `h` whose type is one of `dora`.
pub open spec fn dora_hits(h: Seq<Tile136>, dora: Seq<Tile34>) -> int
    decreases h.len(),
{
    if h.len() == 0 {
        0
    } else {
        dora_hits(h.drop_last(), dora) + (if dora.contains(spec_t136_to_t34(h.last())) {
            1int
        } else {
            0int
        })
    }
}

/// Number of red fives in `h`.
pub open spec fn red_count(h: Seq<Tile136>) -> int
    decreases h.len(),
{
    if h.len() == 0 {
        0
    } else {
        red_count(h.drop_last()) + (if spec_is_red_five(h.last()) {
            1int
        } else {
            0int
        })
    }
}

/// The dora tile types shown by the indicators, in order.
pub open spec fn dora_list(gs: GameState) -> Seq<Tile34> {
    types_of(gs.dora_indicators@).map_values(|t: Tile34| spec_indicator_to_dora(t))
}

/// Some player (the bot included) is in riichi.
pub open spec fn any_riichi(gs: GameState) -> bool {
    exists|i: int| 0 <= i < 4 && (#[trigger] gs.players[i]).is_riichi
}

/// Discarding `tile` is dangerous: the tactics fold against riichi, and
/// some opponent in riichi is not safe against it.
pub open spec fn spec_is_dangerous(ai: TacticsAi, gs: GameState, tile: Tile136) -> bool {
    &&& ai.fold_against_riichi
    &&& any_riichi(gs)
    &&& exists|i: int|
        0 <= i < 4 && {
            let p = #[trigger] gs.players[i];
            p.is_riichi && !p.is_bot && !spec_is_safe_tile(tile, p)
        }
}

/// Type `t` occurs exactly twice in `h` and no other type occurs twice.
pub open spec fn only_pair(h: Seq<Tile136>, t: int) -> bool {
    &&& type_count(h, t) == 2
    &&& forall|u: int| 0 <= u < 34 && u != t ==> #[trigger] type_count(h, u) < 2
}

/// The evaluation of discarding the tile at index `i` of the bot's hand.
pub open spec fn spec_eval(ai: TacticsAi, gs: GameState, i: int) -> DiscardEval {
    let h = bot_hand(gs);
    let tile = h[i];
    let nh = h.remove(i);
    let t = spec_t136_to_t34(tile);
    DiscardEval {
        tile,
        shanten: shanten_of(nh) as i8,
        ukeire: ukeire_of(nh) as u32,
        dora_count: (dora_hits(nh, dora_list(gs)) + red_count(nh)) as usize,
        is_dangerous: spec_is_dangerous(ai, gs, tile),
        breaks_only_pair: only_pair(h, t as int),
        is_dora: dora_list(gs).contains(t) || spec_is_red_five(tile),
        defending: any_riichi(gs) && ai.fold_against_riichi,
    }
}

/// The single evaluation returned when there is nothing to weigh.
pub open spec fn plain_eval(tile: Tile136) -> DiscardEval {
    DiscardEval {
        tile,
        shanten: 0,
        ukeire: 0,
        dora_count: 0,
        is_dangerous: false,
        breaks_only_pair: false,
        is_dora: false,
        defending: false,
    }
}

/// What `evaluate_all_discards` needs: the bot holds a tile, and when its
/// hand is weighed tile by tile, the hand is one the shanten functions take.
pub open spec fn evaluable(gs: GameState) -> bool {
    &&& gs.bot_seat < 4
    &&& bot_hand(gs).len() >= 1
    &&& (bot_hand(gs).len() > 1 && !gs.bot_riichi) ==> valid_hand(bot_hand(gs))
}

fn contains_type(v: &Vec<Tile34>, t: Tile34) -> (r: bool)
    ensures
        r == v@.contains(t),
{
    let mut i: usize = 0;
    while i < v.len()
        invariant
            i <= v@.len(),
            forall|j: int| 0 <= j < i ==> v@[j] != t,
        decreases v@.len() - i,
    {
        if v[i] == t {
            return true;
        }
        i = i + 1;
    }
    false
}

/// Some opponent in riichi is not safe against `tile`.
fn unsafe_against_riichi(state: &GameState, tile: Tile136) -> (r: bool)
    ensures
        r == exists|i: int|
            0 <= i < 4 && {
                let p = #[trigger] state.players[i];
                p.is_riichi && !p.is_bot && !spec_is_safe_tile(tile, p)
            },
{
    let mut q: usize = 0;
    while q < 4
        invariant
            q <= 4,
            forall|j: int|
                0 <= j < q ==> {
                    let p = #[trigger] state.players[j];
                    !(p.is_riichi && !p.is_bot && !spec_is_safe_tile(tile, p))
                },
        decreases 4 - q,
    {
        let p = &state.players[q];
        if p.is_riichi && !p.is_bot {
            if !is_safe_tile(tile, p, p.discards.as_slice()) {
                return true;
            }
        }
        q = q + 1;
    }
    false
}

/// Some tile type other than `t` occurs at least twice in `hand`.
fn has_other_pair(hand: &[Tile136], t: Tile34) -> (r: bool)
    ensures
        r == exists|u: int| 0 <= u < 34 && u != t && #[trigger] type_count(hand@, u) >= 2,
{
    let mut u: u8 = 0;
    while u < 34
        invariant
            u <= 34,
            forall|w: int| 0 <= w < u && w != t ==> #[trigger] type_count(hand@, w) < 2,
        decreases 34 - u,
    {
        if u != t {
            if count_type(hand, u) >= 2 {
                return true;
            }
        }
        u = u + 1;
    }
    false
}

proof fn lemma_first_of_type_some(h: Seq<Tile136>, t: int)
    requires
        type_count(h, t) > 0,
    ensures
        first_of_type(h, t) is Some,
    decreases h.len(),
{
    if h.len() > 0 {
        if h.last() / 4 != t {
            lemma_first_of_type_some(h.drop_last(), t);
        }
    }
}

impl TacticsAi {
    /// Decide whether to call riichi after drawing: see `spec_should_riichi`.
    pub fn should_riichi(&self, state: &GameState) -> (r: (bool, Option<Tile136>))
        requires
            state.bot_seat < 4,
            valid_hand(bot_hand(*state)),
        ensures
            r == spec_should_riichi(*self, *state),
            r.0 ==> spec_shanten(tile_counts(bot_hand(*state))) <= 0,
    {
        if !self.allow_riichi || state.bot_riichi {
            return (false, None);
        }
        let bot = state.bot();
        let hand = &bot.hand_136;
        // Must be menzen (no open melds)
        let mut has_open_melds = false;
        let mut j: usize = 0;
        while j < bot.melds.len()
            invariant
                j <= bot.melds@.len(),
                has_open_melds == exists|q: int|
                    0 <= q < j && {
                        let mt = (#[trigger] bot.melds@[q]).meld_type;
                        mt == MeldType::Chi || mt == MeldType::Pon || mt == MeldType::Daiminkan
                    },
            decreases bot.melds@.len() - j,
        {
            let mt = bot.melds[j].meld_type;
            if mt == MeldType::Chi || mt == MeldType::Pon || mt == MeldType::Daiminkan {
                has_open_melds = true;
            }
            j = j + 1;
        }
        if has_open_melds {
            return (false, None);
        }
        let info = calc_shanten_detailed(hand.as_slice());
        if !info.is_tenpai() {
            return (false, None);
        }
        // In tenpai: check if ukeire is good enough
        if info.ukeire_count < self.min_ukeire_for_riichi {
            return (false, None);
        }
        // The riichi declaration tile is the one we would discard to stay tenpai
        match best_discard_for_shanten(hand.as_slice()) {
            Some((tile, _, _)) => (true, Some(tile)),
            None => (false, None),
        }
    }

    /// Decide whether to call a meld (chi/pon) on an opponent's discard: see
    /// `spec_try_call_meld`.
    pub fn try_call_meld(&self, state: &GameState, discard_tile: Tile136, can_chi: bool) -> (r: Option<
        MeldDecision,
    >)
        requires
            state.bot_seat < 4,
            callable(bot_hand(*state), discard_tile),
        ensures
            r matches Some(d) ==> spec_try_call_meld(*self, *state, discard_tile, can_chi) == Some(
                decision_view(d),
            ),
            r is None ==> spec_try_call_meld(*self, *state, discard_tile, can_chi) is None,
    {
        if !self.allow_melds {
            return None;
        }
        if state.bot_riichi {
            return None;  // Can't call melds in riichi
        }
        let bot = state.bot();
        let hand = &bot.hand_136;
        let ghost h = hand@;
        let tile34 = t136_to_t34(discard_tile);

        // Check pon
        if let Some(d) = self.try_pon(hand.as_slice(), discard_tile) {
            return Some(d);
        }

        // Check chi
        if can_chi && tile34_suit(tile34) != Suit::Honor {
            let mut k: usize = 0;
            while k < 3
                invariant
                    k <= 3,
                    h == hand@,
                    h == bot_hand(*state),
                    self.allow_melds,
                    !state.bot_riichi,
                    can_chi,
                    spec_pon_call(*self, h, discard_tile) is None,
                    callable(h, discard_tile),
                    spec_tile34_suit(spec_t136_to_t34(discard_tile)) != Suit::Honor,
                    spec_chi_call_from(*self, h, discard_tile, 0) == spec_chi_call_from(
                        *self,
                        h,
                        discard_tile,
                        k as int,
                    ),
                decreases 3 - k,
            {
                if let Some(d) = self.try_chi(hand.as_slice(), discard_tile, k) {
                    assert(spec_chi_call_from(*self, h, discard_tile, k as int) == Some(decision_view(d)));
                    return Some(d);
                }
                k = k + 1;
            }
        }
        None
    }

    /// The pon on `discard_tile`, when `spec_pon_call` makes one.
    fn try_pon(&self, hand: &[Tile136], discard_tile: Tile136) -> (r: Option<MeldDecision>)
        requires
            callable(hand@, discard_tile),
        ensures
            r matches Some(d) ==> spec_pon_call(*self, hand@, discard_tile) == Some(decision_view(d)),
            r is None ==> spec_pon_call(*self, hand@, discard_tile) is None,
    {
        let ghost h = hand@;
        let tile34 = t136_to_t34(discard_tile);
        assert(tile34 as int == discard_tile as int / 4);
        let count_in_hand = count_type(hand, tile34);
        if count_in_hand >= 2 {
            // Can pon: the hand without two copies, plus the called tile
            let (mut hypothetical_hand, taken) = split_for_pon(hand, tile34);
            hypothetical_hand.push(discard_tile);
            proof {
                lemma_pon_hand_valid(h, discard_tile);
            }
            assert(hypothetical_hand@ == pon_hand(h, discard_tile));
            let current_info = calc_shanten_detailed(hand);
            let after_info = calc_shanten_detailed(hypothetical_hand.as_slice());
            let improvement = current_info.shanten as i16 - after_info.shanten as i16;
            if improvement >= self.min_shanten_improve_for_meld as i16 || (current_info.shanten <= 1
                && improvement >= 1) {
                // Find best discard after pon
                if let Some((discard, _, _)) = best_discard_for_shanten(hypothetical_hand.as_slice()) {
                    return Some(MeldDecision { meld_type: 1, hand_tiles: taken, discard_after: discard });
                }
            }
        }
        None
    }

    /// The chi on the number tile `discard_tile` with pattern `k`, when
    /// `spec_chi_at` makes one.
    fn try_chi(&self, hand: &[Tile136], discard_tile: Tile136, k: usize) -> (r: Option<MeldDecision>)
        requires
            callable(hand@, discard_tile),
            spec_tile34_suit(spec_t136_to_t34(discard_tile)) != Suit::Honor,
            k < 3,
        ensures
            r matches Some(d) ==> spec_chi_at(*self, hand@, discard_tile, k as int) == Some(decision_view(d)),
            r is None ==> spec_chi_at(*self, hand@, discard_tile, k as int) is None,
    {
        let ghost h = hand@;
        let tile34 = t136_to_t34(discard_tile);
        assert(tile34 as int == discard_tile as int / 4);
        let num = tile34_number(tile34);
        let suit = tile34_suit(tile34);
        let (d1, d2): (i16, i16) = if k == 0 {
            (-2, -1)
        } else if k == 1 {
            (-1, 1)
        } else {
            (1, 2)
        };
        let n1 = num as i16 + d1;
        let n2 = num as i16 + d2;
        assert((n1 as int, n2 as int) == chi_pattern(num as int, k as int));
        if n1 < 1 || n2 < 1 || n1 > 9 || n2 > 9 {
            return None;
        }
        let (t1, t2) = match (suit_number_to_t34(suit, n1 as u8), suit_number_to_t34(suit, n2 as u8)) {
            (Some(t1), Some(t2)) => (t1, t2),
            _ => {
                return None;
            },
        };
        assert(t1 as int == suit_base_of(tile34) + n1 - 1);
        assert(t2 as int == suit_base_of(tile34) + n2 - 1);
        let has_t1 = count_type(hand, t1) > 0;
        let has_t2 = count_type(hand, t2) > 0;
        if !(has_t1 && has_t2) {
            return None;
        }
        // Can chi: the hand without one of each, plus the called tile
        let mut hypothetical_hand = remove_for_chi(hand, t1, t2);
        hypothetical_hand.push(discard_tile);
        proof {
            lemma_chi_hand_valid(h, t1 as int, t2 as int, discard_tile);
        }
        assert(hypothetical_hand@ == chi_hand(h, t1 as int, t2 as int, discard_tile));
        let current_info = calc_shanten_detailed(hand);
        let after_info = calc_shanten_detailed(hypothetical_hand.as_slice());
        let improvement = current_info.shanten as i16 - after_info.shanten as i16;
        if improvement >= self.min_shanten_improve_for_meld as i16 || (current_info.shanten <= 1 && improvement
            >= 1) {
            if let Some((discard, _, _)) = best_discard_for_shanten(hypothetical_hand.as_slice()) {
                // The actual tiles of the two types in hand
                proof {
                    lemma_first_of_type_some(h, t1 as int);
                    lemma_first_of_type_some(h, t2 as int);
                }
                let ht1 = match find_type(hand, t1) {
                    Some(x) => x,
                    None => 0,
                };
                let ht2 = match find_type(hand, t2) {
                    Some(x) => x,
                    None => 0,
                };
                let mut hand_tiles: Vec<Tile136> = Vec::new();
                hand_tiles.push(ht1);
                hand_tiles.push(ht2);
                assert(hand_tiles@ =~= seq![first_of_type(h, t1 as int)->0, first_of_type(h, t2 as int)->0]);
                return Some(MeldDecision { meld_type: 3, hand_tiles, discard_after: discard });
            }
        }
        None
    }

    /// Evaluate all possible discards for the current hand: one evaluation
    /// of the only tile when the hand holds one, of the drawn tile (or the
    /// last tile) in riichi, else `spec_eval` of every tile in hand order.
    pub fn evaluate_all_discards(&self, state: &GameState) -> (r: Vec<DiscardEval>)
        requires
            evaluable(*state),
        ensures
            bot_hand(*state).len() <= 1 ==> r@ == seq![plain_eval(bot_hand(*state)[0])],
            bot_hand(*state).len() > 1 && state.bot_riichi ==> r@ == seq![
                plain_eval(
                    match state.last_drawn_tile {
                        Some(t) => t,
                        None => bot_hand(*state).last(),
                    },
                ),
            ],
            bot_hand(*state).len() > 1 && !state.bot_riichi ==> r@.len() == bot_hand(*state).len() && forall|
                i: int,
            |
                0 <= i < r@.len() ==> #[trigger] r@[i] == spec_eval(*self, *state, i),
    {
        let bot = state.bot();
        let hand = &bot.hand_136;

        // One tile: just discard it
        if hand.len() <= 1 {
            let mut v: Vec<DiscardEval> = Vec::new();
            v.push(
                DiscardEval {
                    tile: hand[0],
                    shanten: 0,
                    ukeire: 0,
                    dora_count: 0,
                    is_dangerous: false,
                    breaks_only_pair: false,
                    is_dora: false,
                    defending: false,
                },
            );
            return v;
        }
        if state.bot_riichi {
            // In riichi: must tsumogiri (discard the drawn tile)
            let last = match state.last_drawn_tile {
                Some(t) => t,
                None => hand[hand.len() - 1],
            };
            let mut v: Vec<DiscardEval> = Vec::new();
            v.push(
                DiscardEval {
                    tile: last,
                    shanten: 0,
                    ukeire: 0,
                    dora_count: 0,
                    is_dangerous: false,
                    breaks_only_pair: false,
                    is_dora: false,
                    defending: false,
                },
            );
            return v;
        }

        let dora_tiles = state.dora_tiles();
        let mut has_opponent_riichi = false;
        let mut p: usize = 0;
        while p < 4
            invariant
                p <= 4,
                has_opponent_riichi == exists|q: int| 0 <= q < p && (#[trigger] state.players[q]).is_riichi,
            decreases 4 - p,
        {
            if state.players[p].is_riichi {
                has_opponent_riichi = true;
            }
            p = p + 1;
        }
        let mut evaluations: Vec<DiscardEval> = Vec::new();
        let mut i: usize = 0;
        while i < hand.len()
            invariant
                evaluable(*state),
                !state.bot_riichi,
                hand@ == bot_hand(*state),
                hand@.len() > 1,
                dora_tiles@ == dora_list(*state),
                has_opponent_riichi == any_riichi(*state),
                i <= hand@.len(),
                evaluations@.len() == i,
                forall|j: int| 0 <= j < i ==> #[trigger] evaluations@[j] == spec_eval(*self, *state, j),
            decreases hand@.len() - i,
        {
            let e = self.evaluate_discard(state, hand.as_slice(), i, &dora_tiles, has_opponent_riichi);
            evaluations.push(e);
            i = i + 1;
        }
        evaluations
    }

    /// The evaluation of discarding the tile at index `i`.
    fn evaluate_discard(
        &self,
        state: &GameState,
        hand: &[Tile136],
        i: usize,
        dora_tiles: &Vec<Tile34>,
        has_opponent_riichi: bool,
    ) -> (r: DiscardEval)
        requires
            state.bot_seat < 4,
            hand@ == bot_hand(*state),
            valid_hand(hand@),
            i < hand@.len(),
            dora_tiles@ == dora_list(*state),
            has_opponent_riichi == any_riichi(*state),
        ensures
            r == spec_eval(*self, *state, i as int),
    {
        let ghost h = hand@;
        let tile = hand[i];
        let new_hand = remove_at(hand, i);
        proof {
            lemma_remove_valid(h, i as int);
        }
        let info = calc_shanten_detailed(new_hand.as_slice());

        // Count dora in hand after discard
        let mut dora_hit: usize = 0;
        let mut reds: usize = 0;
        let mut k: usize = 0;
        while k < new_hand.len()
            invariant
                k <= new_hand@.len(),
                new_hand@.len() <= 199,
                dora_hit == dora_hits(new_hand@.take(k as int), dora_tiles@),
                reds == red_count(new_hand@.take(k as int)),
                dora_hit <= k,
                reds <= k,
            decreases new_hand@.len() - k,
        {
            assert(new_hand@.take(k + 1).drop_last() =~= new_hand@.take(k as int));
            let x = new_hand[k];
            if contains_type(dora_tiles, t136_to_t34(x)) {
                dora_hit = dora_hit + 1;
            }
            if is_aka(x) {
                reds = reds + 1;
            }
            k = k + 1;
        }
        assert(new_hand@.take(new_hand@.len() as int) =~= new_hand@);
        let dora_count = dora_hit + reds;

        // Check if this tile is dangerous
        let is_dangerous = self.fold_against_riichi && has_opponent_riichi && unsafe_against_riichi(state, tile);

        let tile34 = t136_to_t34(tile);
        // Breaking the only pair in the hand
        let mut breaks_only_pair = false;
        let count_this_tile = count_type(hand, tile34);
        if count_this_tile == 2 {
            // This tile is part of a pair. Check if it's the only pair.
            if !has_other_pair(hand, tile34) {
                breaks_only_pair = true;
            }
        }

        // Keeping dora
        let is_dora = contains_type(dora_tiles, tile34) || is_aka(tile);

        DiscardEval {
            tile,
            shanten: info.shanten,
            ukeire: info.ukeire_count,
            dora_count,
            is_dangerous,
            breaks_only_pair,
            is_dora,
            defending: has_opponent_riichi && self.fold_against_riichi,
        }
    }

    /// Decide whether to call a kan: these tactics never do (a kan gives
    /// the opponents extra dora).
    pub fn should_call_kan(&self, state: &GameState, drawn_tile: Tile136, from_opponent: bool) -> (r: (
        u8,
        Option<Tile136>,
    ))
        ensures
            r == (0u8, None::<Tile136>),
    {
        (0, None)
    }

    /// Decide whether to declare tsumo: always (in riichi the bot is committed,
    /// and in dama it takes the win too).
    pub fn should_tsumo(&self, state: &GameState) -> (r: bool)
        ensures
            r,
    {
        if state.bot_riichi {
            return true;
        }
        true
    }

    /// Decide whether to declare ron: always, even in dama.
    pub fn should_ron(&self, state: &GameState, discard_tile: Tile136) -> (r: bool)
        ensures
            r,
    {
        true
    }

    /// Kyushu kyuhai: nine or more terminals and honors in the hand.
    pub fn should_kyushu_kyuhai(&self, state: &GameState) -> (r: bool)
        requires
            state.bot_seat < 4,
        ensures
            r == (yaochuu_count(bot_hand(*state)) >= 9),
    {
        let bot = state.bot();
        let h = &bot.hand_136;
        let mut count: usize = 0;
        let mut i: usize = 0;
        while i < h.len()
            invariant
                i <= h@.len(),
                count == yaochuu_count(h@.take(i as int)),
                count <= i,
            decreases h@.len() - i,
        {
            assert(h@.take(i + 1).drop_last() =~= h@.take(i as int));
            if tile34_is_yaochuu(t136_to_t34(h[i])) {
                count = count + 1;
            }
            i = i + 1;
        }
        assert(h@.take(h@.len() as int) =~= h@);
        count >= 9
    }
}

/// A pon the tactics call takes from the hand the first two tiles of the
/// called tile's type.
pub proof fn lemma_pon_takes_two_of_type(ai: TacticsAi, h: Seq<Tile136>, tile: Tile136)
    requires
        spec_pon_call(ai, h, tile) is Some,
    ensures
        ({
            let d = spec_pon_call(ai, h, tile)->0;
            &&& d.0 == 1
            &&& d.1.len() == 2
            &&& forall|i: int| 0 <= i < 2 ==> #[trigger] d.1[i] / 4 == tile / 4
        }),
{
    lemma_pon_removal(h, tile as int / 4);
}

/// A chi the tactics call takes from the hand one tile of each of two
/// types, both in the called tile's suit and within two of its number.
pub proof fn lemma_chi_takes_neighbors(ai: TacticsAi, h: Seq<Tile136>, tile: Tile136, k: int)
    requires
        spec_chi_at(ai, h, tile, k) is Some,
        spec_tile34_suit(spec_t136_to_t34(tile)) != Suit::Honor,
    ensures
        ({
            let d = spec_chi_at(ai, h, tile, k)->0;
            let t = spec_t136_to_t34(tile);
            &&& d.0 == 3
            &&& d.1.len() == 2
            &&& forall|i: int| 0 <= i < 2 ==> {
                let u = #[trigger] d.1[i] as int / 4;
                &&& suit_base_of(t) <= u < suit_base_of(t) + 9
                &&& u != t
                &&& t - 2 <= u <= t + 2
                &&& type_count(h, u) > 0
            }
        }),
{
    let t = spec_t136_to_t34(tile);
    let (n1, n2) = chi_pattern(spec_tile34_number(t) as int, k);
    let base = suit_base_of(t);
    assert(t <= 26);
    assert(spec_tile34_number(t) as int == t - base + 1);
    assert(1 <= n1 <= 9 && 1 <= n2 <= 9);
    assert(type_count(h, base + n1 - 1) > 0 && type_count(h, base + n2 - 1) > 0);
    lemma_first_of_type_is(h, base + n1 - 1);
    lemma_first_of_type_is(h, base + n2 - 1);
    lemma_first_of_type_some(h, base + n1 - 1);
    lemma_first_of_type_some(h, base + n2 - 1);
}

proof fn lemma_first_of_type_is(h: Seq<Tile136>, t: int)
    ensures
        first_of_type(h, t) matches Some(x) ==> x / 4 == t,
    decreases h.len(),
{
    if h.len() > 0 {
        lemma_first_of_type_is(h.drop_last(), t);
    }
}

/// Whether `try_call_meld` can weigh a call on `tile` with `hand` (see `callable`).
pub fn can_weigh_call(hand: &[Tile136], tile: Tile136) -> (r: bool)
    ensures
        r == callable(hand@, tile),
{
    crate::shanten::hand_is_valid(hand) && tile < 136 && count_type(hand, (tile / 4) as u8) <= 126
}

/// Riichi is declared only with a tenpai (or complete) hand: when the
/// tactics answer yes, the shanten of the bot's hand, as `calc_shanten` gives
/// it, is at most 0; besides, riichi must be allowed, the bot not yet in
/// riichi, its hand closed and its ukeire at least the minimum.
pub proof fn lemma_riichi_only_when_tenpai(ai: TacticsAi, gs: GameState)
    ensures
        spec_should_riichi(ai, gs).0 ==> {
            &&& spec_shanten(tile_counts(bot_hand(gs))) <= 0
            &&& ai.allow_riichi
            &&& !gs.bot_riichi
            &&& !has_open_meld(gs.players[gs.bot_seat as int].melds@)
            &&& spec_shanten_info(tile_counts(bot_hand(gs))).2 >= ai.min_ukeire_for_riichi
        },
{
}

} // verus!
