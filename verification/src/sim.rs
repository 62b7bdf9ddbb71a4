//! Local mahjong game simulator for testing the bot's AI.
//!
//! Simulates a complete hanchan with:
//! - Full wall (136 tiles including red fives)
//! - Riichi, tsumo, ron, ryuukyoku
//! - Basic scoring (tsumo/ron payments, riichi sticks, honba)
//! - The bot plays its strategy, opponents auto-riichi when tenpai

use vstd::prelude::*;
use rand::seq::SliceRandom;
use crate::ai::AiStrategy;
use crate::meld::MeldType;
use crate::shanten::{calc_shanten, calc_shanten_detailed, spec_shanten, tile_counts, valid_hand, type_count, ints, countable, count_tile, discard_result, best_discard_index, lemma_type_count_le_len, lemma_shanten_at_most_six, remove_at, lemma_remove_valid, lemma_best_discard_index};
use crate::state::{GameState, PlayerState, spec_new_state, sort_tiles, sorted, remove_all, without_tile, count_slice};
use crate::text::{decimal, signed_decimal, push_str, push_decimal, push_signed};
use crate::tile::{Tile136, Tile34, tile136_display, tiles136_display};
use crate::yaku::{has_yaku, WinContext, yaku_names};
use crate::client::texts;

verus! {

// ── Opponent AI ─────────────────────────────────────────────────────────

/// The opponents' strategy: tsumogiri in riichi, else the discard that
/// leaves the lowest shanten, then the most ukeire.
pub struct SimpleAi {
    pub fold_against_riichi: bool,
}

impl SimpleAi {
    pub fn new() -> (r: Self)
        ensures
            r.fold_against_riichi,
    {
        SimpleAi { fold_against_riichi: true }
    }

    /// The last tile in riichi; else the first tile whose discard leaves the
    /// lowest shanten, ties broken by the highest ukeire.
    pub fn choose_discard(&self, hand: &[Tile136], riichi: bool) -> (r: Tile136)
        requires
            hand@.len() > 0,
            !riichi ==> valid_hand(hand@),
        ensures
            r == (if riichi {
                hand@.last()
            } else {
                hand@[best_discard_index(hand@, hand@.len() as int)]
            }),
    {
        if riichi {
            return hand[hand.len() - 1];  // tsumogiri
        }
        let ghost h = hand@;
        let mut best = hand[0];
        let mut best_s: i8 = 99;
        let mut best_u: u32 = 0;
        let mut i: usize = 0;
        while i < hand.len()
            invariant
                h == hand@,
                valid_hand(h),
                h.len() > 0,
                i <= h.len(),
                i == 0 ==> best == h[0] && best_s == 99,
                i > 0 ==> {
                    let b = best_discard_index(h, i as int);
                    &&& best == h[b]
                    &&& best_s == discard_result(h, b).0
                    &&& best_u == discard_result(h, b).1
                },
            decreases h.len() - i,
        {
            let t = hand[i];
            let h2 = remove_at(hand, i);
            proof {
                lemma_remove_valid(h, i as int);
                lemma_shanten_at_most_six(tile_counts(h.remove(i as int)));
            }
            let info = calc_shanten_detailed(h2.as_slice());
            if info.shanten < best_s || (info.shanten == best_s && info.ukeire_count > best_u) {
                best_s = info.shanten;
                best_u = info.ukeire_count;
                best = t;
            }
            i = i + 1;
        }
        best
    }
}

// ── Player ───────────────────────────────────────────────────────────────

/// A meld of a simulated player.
pub struct SimMeld {
    pub mtype: MeldType,
    pub tiles: Vec<Tile136>,
    pub called_tile: Tile136,
    pub from: usize,
}

/// A simulated player.
pub struct SimPlayer {
    pub hand: Vec<Tile136>,
    pub discards: Vec<Tile136>,
    pub melds: Vec<SimMeld>,
    pub riichi: bool,
    pub score: i32,
    pub seat: usize,
}

impl SimPlayer {
    pub fn new(seat: usize) -> (r: Self)
        ensures
            r.hand@.len() == 0,
            r.discards@.len() == 0,
            r.melds@.len() == 0,
            !r.riichi,
            r.score == 25000,
            r.seat == seat,
    {
        SimPlayer {
            hand: Vec::new(),
            discards: Vec::new(),
            melds: Vec::new(),
            riichi: false,
            score: 25000,
            seat,
        }
    }
}

/// The round's name: East or South, then its number, then "局".
pub open spec fn round_name_text(r: u8) -> Seq<char> {
    (if r < 4 {
        "東"@
    } else {
        "南"@
    }) + decimal((r % 4 + 1) as nat) + "局"@
}

/// The round's name, as "東1局".
pub fn round_name(r: u8) -> (s: String)
    ensures
        s@ == round_name_text(r),
{
    let mut s = String::new();
    if r < 4 {
        push_str(&mut s, "東");
    } else {
        push_str(&mut s, "南");
    }
    push_decimal(&mut s, (r % 4 + 1) as u64);
    push_str(&mut s, "局");
    s
}

/// The tiles of a wall: every tile of the set, once, in tile order.
pub open spec fn full_set() -> Seq<Tile136> {
    Seq::new(136, |i: int| i as Tile136)
}

/// Shuffles the tiles in place with the thread-local generator
/// (`rand::seq::SliceRandom::shuffle`, which only swaps elements, driven by
/// `rand::thread_rng`). What comes out is some permutation of what went in;
/// which one depends on the generator and is left unsaid.
#[verifier::external_body]
fn shuffle_tiles(tiles: &mut Vec<Tile136>)
    ensures
        final(tiles)@.to_multiset() == old(tiles)@.to_multiset(),
        final(tiles)@.len() == old(tiles)@.len(),
{
    tiles.shuffle(&mut rand::thread_rng());
}

// ── Simulator ────────────────────────────────────────────────────────────

/// The scores of the four players, as "[a, b, c, d]".
pub open spec fn scores_text(p: [SimPlayer; 4]) -> Seq<char> {
    "["@ + signed_decimal(p[0].score as int) + ", "@ + signed_decimal(p[1].score as int) + ", "@
        + signed_decimal(p[2].score as int) + ", "@ + signed_decimal(p[3].score as int) + "]"@
}

/// The seats among the first `n` whose flag is set, in order.
pub open spec fn flagged(flags: Seq<bool>, n: int) -> Seq<nat>
    decreases n,
{
    if n <= 0 {
        seq![]
    } else if flags[n - 1] {
        flagged(flags, n - 1).push((n - 1) as nat)
    } else {
        flagged(flags, n - 1)
    }
}

/// Numbers separated by ", ".
pub open spec fn joined(s: Seq<nat>) -> Seq<char>
    decreases s.len(),
{
    if s.len() == 0 {
        seq![]
    } else if s.len() == 1 {
        decimal(s[0])
    } else {
        joined(s.drop_last()) + ", "@ + decimal(s.last())
    }
}

/// Sum of the four scores.
pub open spec fn score_sum(p: [SimPlayer; 4]) -> int {
    p[0].score + p[1].score + p[2].score + p[3].score
}

/// All scores lie within `b` of zero.
pub open spec fn scores_within(p: [SimPlayer; 4], b: int) -> bool {
    forall|i: int| 0 <= i < 4 ==> -b <= #[trigger] p[i].score <= b
}


/// All tiles of a list of simulated melds, meld by meld.
pub open spec fn sim_meld_tiles(melds: Seq<SimMeld>) -> Seq<Tile136>
    decreases melds.len(),
{
    if melds.len() == 0 {
        seq![]
    } else {
        sim_meld_tiles(melds.drop_last()) + melds.last().tiles@
    }
}

/// Every meld is a closed kan.
pub open spec fn all_ankan(melds: Seq<SimMeld>) -> bool {
    forall|i: int| 0 <= i < melds.len() ==> (#[trigger] melds[i]).mtype == MeldType::Ankan
}

/// The seat wind of seat `pid` when `dealer` deals.
pub open spec fn seat_wind_of(pid: int, dealer: int) -> Tile34 {
    (27 + (4 + pid - dealer) % 4) as Tile34
}

/// The tiles a win of player `p` on `win_tile` counts: hand, meld tiles, winning tile.
pub open spec fn win_tiles(p: SimPlayer, win_tile: Tile136) -> Seq<Tile136> {
    p.hand@ + sim_meld_tiles(p.melds@) + seq![win_tile]
}

/// The player's hand counts as tenpai (shanten zero or less).
pub open spec fn is_tenpai(p: SimPlayer) -> bool {
    spec_shanten(tile_counts(p.hand@)) <= 0
}

/// Which players are tenpai.
pub open spec fn tenpai_flags(p: [SimPlayer; 4]) -> Seq<bool> {
    seq![is_tenpai(p[0]), is_tenpai(p[1]), is_tenpai(p[2]), is_tenpai(p[3])]
}

/// Number of set flags among the first `n`.
pub open spec fn flag_count(f: Seq<bool>, n: int) -> int
    decreases n,
{
    if n <= 0 {
        0
    } else {
        flag_count(f, n - 1) + (if f[n - 1] { 1int } else { 0int })
    }
}

/// Which players are in riichi.
pub open spec fn riichi_flags(p: [SimPlayer; 4]) -> Seq<bool> {
    seq![p[0].riichi, p[1].riichi, p[2].riichi, p[3].riichi]
}

/// The score change of player `i` at an exhaustive draw: with one to three
/// players tenpai, each noten player pays 1000 and the tenpai players share
/// the payments (rounded down); a riichi player gets its stick back.
pub open spec fn draw_change(p: [SimPlayer; 4], i: int) -> int {
    let f = tenpai_flags(p);
    let count = flag_count(f, 4);
    (if count == 0 || count == 4 {
        0
    } else if f[i] {
        1000 * (4 - count) / count
    } else {
        -1000
    }) + (if p[i].riichi { 1000int } else { 0int })
}

/// Every hand holds at most `max` real tiles.
pub open spec fn hands_within(p: [SimPlayer; 4], max: int) -> bool {
    forall|i: int|
        0 <= i < 4 ==> {
            let h = (#[trigger] p[i]).hand@;
            h.len() <= max && forall|k: int| 0 <= k < h.len() ==> #[trigger] h[k] < 136
        }
}

proof fn lemma_small_hand_valid(h: Seq<Tile136>)
    requires
        h.len() <= 127,
        forall|k: int| 0 <= k < h.len() ==> #[trigger] h[k] < 136,
    ensures
        valid_hand(h),
{
    assert forall|t: int| 0 <= t < 34 implies #[trigger] type_count(h, t) <= 127 by {
        lemma_type_count_le_len(h, t);
    }
}


/// The game as the bot's strategy sees it in `sim`: a fresh state holding the
/// bot's hand and riichi, the dealer, the round wind, the dora indicators,
/// and each opponent's discards and riichi.
pub open spec fn bot_view<A: AiStrategy>(sim: Simulator<A>, gs: GameState) -> bool {
    &&& exists|fresh: GameState|
        {
            &&& spec_new_state(fresh, 0, 0)
            &&& gs == (GameState {
                players: gs.players,
                bot_riichi: gs.bot_riichi,
                dealer_seat: gs.dealer_seat,
                round_wind: gs.round_wind,
                dora_indicators: gs.dora_indicators,
                ..fresh
            })
            &&& gs.players[0] == (PlayerState {
                hand_136: gs.players[0].hand_136,
                is_riichi: gs.players[0].is_riichi,
                ..fresh.players[0]
            })
            &&& forall|i: int|
                1 <= i < 4 ==> #[trigger] gs.players[i] == (PlayerState {
                    discards: gs.players[i].discards,
                    is_riichi: gs.players[i].is_riichi,
                    ..fresh.players[i]
                })
        }
    &&& gs.players[0].hand_136@ == sim.players[0].hand@
    &&& gs.bot_riichi == sim.players[0].riichi
    &&& gs.players[0].is_riichi == sim.players[0].riichi
    &&& gs.dealer_seat == sim.dealer as u8
    &&& gs.round_wind == sim.round_wind
    &&& gs.dora_indicators@ == sim.dora_indicators@
    &&& forall|i: int|
        1 <= i < 4 ==> (#[trigger] gs.players[i]).discards@ == sim.players[i].discards@ && gs.players[i].is_riichi
            == sim.players[i].riichi
}

/// A winning claim of the bot on `tile`: the counted tiles carry a yaku, or
/// the bot is in riichi.
pub open spec fn bot_claims<A: AiStrategy>(sim: Simulator<A>, tile: Tile136, tsumo: bool) -> bool {
    let p = sim.players[0];
    yaku_names(
        tile_counts(win_tiles(p, tile)),
        all_ankan(p.melds@),
        p.riichi,
        tsumo,
        sim.round_wind,
        seat_wind_of(0, sim.dealer as int),
    ).len() > 0 || p.riichi
}

/// The first player from seat `pid` on, other than the discarder, whose hand
/// wins on `tile` (shanten below zero) and who claims it: the bot by
/// `bot_claims`, an opponent only in riichi.
pub open spec fn ron_winner_from<A: AiStrategy>(sim: Simulator<A>, discarder: int, tile: Tile136, pid: int) -> Option<
    usize,
>
    decreases 4 - pid,
{
    if pid >= 4 || pid < 0 {
        None
    } else if pid == discarder {
        ron_winner_from(sim, discarder, tile, pid + 1)
    } else if spec_shanten(tile_counts(sim.players[pid].hand@.push(tile))) < 0 && (if pid == 0 {
        bot_claims(sim, tile, false)
    } else {
        sim.players[pid].riichi
    }) {
        Some(pid as usize)
    } else {
        ron_winner_from(sim, discarder, tile, pid + 1)
    }
}

/// The players hold no melds.
pub open spec fn no_melds(p: [SimPlayer; 4]) -> bool {
    forall|i: int| 0 <= i < 4 ==> (#[trigger] p[i]).melds@.len() == 0
}


proof fn lemma_sim_meld_tiles_prefix(melds: Seq<SimMeld>, j: int)
    requires
        0 <= j <= melds.len(),
    ensures
        sim_meld_tiles(melds.take(j)).len() <= sim_meld_tiles(melds).len(),
        sim_meld_tiles(melds.take(j)) == sim_meld_tiles(melds).take(sim_meld_tiles(melds.take(j)).len() as int),
    decreases melds.len() - j,
{
    if j == melds.len() {
        assert(melds.take(j) =~= melds);
        assert(sim_meld_tiles(melds).take(sim_meld_tiles(melds).len() as int) =~= sim_meld_tiles(melds));
    } else {
        lemma_sim_meld_tiles_prefix(melds, j + 1);
        assert(melds.take(j + 1).drop_last() =~= melds.take(j));
        let a = sim_meld_tiles(melds.take(j));
        let b = sim_meld_tiles(melds.take(j + 1));
        assert(a =~= b.take(a.len() as int));
        assert(a =~= sim_meld_tiles(melds).take(a.len() as int));
    }
}

/// Whether `h` holds the tile `t`.
fn holds(h: &Vec<Tile136>, t: Tile136) -> (r: bool)
    ensures
        r == (cnt(h@, t) >= 1),
{
    let mut i: usize = 0;
    while i < h.len()
        invariant
            i <= h@.len(),
            cnt(h@.take(i as int), t) == 0,
        decreases h@.len() - i,
    {
        assert(h@.take(i + 1).drop_last() =~= h@.take(i as int));
        if h[i] == t {
            proof {
                lemma_cnt_index(h@, i as int);
            }
            return true;
        }
        i = i + 1;
    }
    assert(h@.take(h@.len() as int) =~= h@);
    false
}

/// A copy of a tile list.
fn copy_tiles(v: &Vec<Tile136>) -> (r: Vec<Tile136>)
    ensures
        r@ == v@,
{
    let mut r: Vec<Tile136> = Vec::new();
    let mut i: usize = 0;
    while i < v.len()
        invariant
            i <= v@.len(),
            r@ == v@.take(i as int),
        decreases v@.len() - i,
    {
        r.push(v[i]);
        assert(v@.take(i + 1) =~= v@.take(i as int).push(v@[i as int]));
        i = i + 1;
    }
    assert(v@.take(v@.len() as int) =~= v@);
    r
}


proof fn lemma_flag_count_bounds(f: Seq<bool>, n: int)
    requires
        n >= 0,
    ensures
        0 <= flag_count(f, n) <= n,
    decreases n,
{
    if n > 0 {
        lemma_flag_count_bounds(f, n - 1);
    }
}

/// At an exhaustive draw the noten payments cancel out, but for the point
/// lost to rounding when three players share one payment; the riichi sticks
/// come back to the scores.
proof fn lemma_draw_points(p: [SimPlayer; 4])
    ensures
        draw_change(p, 0) + draw_change(p, 1) + draw_change(p, 2) + draw_change(p, 3) == 1000 * flag_count(
            riichi_flags(p),
            4,
        ) + (if flag_count(tenpai_flags(p), 4) == 3 {
            -1int
        } else {
            0int
        }),
{
    reveal_with_fuel(flag_count, 5);
    let f = tenpai_flags(p);
    let count = flag_count(f, 4);
    lemma_flag_count_bounds(f, 4);
    if count == 1 {
        assert(1000 * (4 - count) / count == 3000);
    } else if count == 2 {
        assert(1000 * (4 - count) / count == 1000);
    } else if count == 3 {
        assert(1000 * (4 - count) / count == 333);
    }
}


/// The state inside a round, measured against the scores `base` it started
/// from: a full shuffled wall with the dead wall at 122, the table counters
/// in range, no melds, and every riichi stick in the pot paid by a player now
/// in riichi.
pub open spec fn in_round<A: AiStrategy>(s: Simulator<A>, base: [SimPlayer; 4]) -> bool {
    &&& s.wall@.len() == 136
    &&& forall|i: int| 0 <= i < 136 ==> #[trigger] s.wall@[i] < 136
    &&& s.dead_wall_start == 122
    &&& s.dealer < 4
    &&& s.honba < 255
    &&& no_melds(s.players)
    &&& s.riichi_sticks == flag_count(riichi_flags(s.players), 4)
    &&& forall|i: int|
        0 <= i < 4 ==> #[trigger] s.players[i].score == base[i].score - (if s.players[i].riichi {
            1000int
        } else {
            0int
        })
    &&& scores_within(base, 1_000_000_000)
    &&& s.wall_pos <= 136
    &&& tiles_accounted(s.players, s.wall@, s.wall_pos as int)
}

/// `a` is `b` followed by more lines.
pub open spec fn extends(a: Seq<String>, b: Seq<String>) -> bool {
    b.len() <= a.len() && a.take(b.len() as int) == b
}

/// How a round ends for the points: the scores sum to what they summed to
/// at the start, up to the rounding of split payments (a dealer's tsumo
/// may gain up to two points, a draw with three tenpai loses one), and the
/// pot is empty.
pub open spec fn round_settled(before: [SimPlayer; 4], after: [SimPlayer; 4], sticks: i32) -> bool {
    &&& sticks == 0
    &&& score_sum(before) - 1 <= score_sum(after) <= score_sum(before) + 2
    &&& forall|i: int|
        0 <= i < 4 ==> -40000 <= #[trigger] after[i].score - before[i].score <= 40000
}

/// How often the tile `x` occurs in `s`.
pub open spec fn cnt(s: Seq<Tile136>, x: Tile136) -> int
    decreases s.len(),
{
    if s.len() == 0 {
        0
    } else {
        cnt(s.drop_last(), x) + (if s.last() == x { 1int } else { 0int })
    }
}

/// How often `x` is held in the players' hands.
pub open spec fn held(p: [SimPlayer; 4], x: Tile136) -> int {
    cnt(p[0].hand@, x) + cnt(p[1].hand@, x) + cnt(p[2].hand@, x) + cnt(p[3].hand@, x)
}

/// How often `x` lies in the players' discards.
pub open spec fn thrown(p: [SimPlayer; 4], x: Tile136) -> int {
    cnt(p[0].discards@, x) + cnt(p[1].discards@, x) + cnt(p[2].discards@, x) + cnt(p[3].discards@, x)
}

/// Every tile of the set is in exactly one place: in one hand, in one
/// discard pile, or in the wall from `pos` on; nothing else is anywhere.
pub open spec fn tiles_accounted(p: [SimPlayer; 4], wall: Seq<Tile136>, pos: int) -> bool {
    forall|x: Tile136|
        #![trigger held(p, x)]
        held(p, x) + cnt(wall.skip(pos), x) + thrown(p, x) == (if x < 136 { 1int } else { 0int })
}

/// The number of tiles in the discard piles.
pub open spec fn pile_size(p: [SimPlayer; 4]) -> int {
    (p[0].discards@.len() + p[1].discards@.len() + p[2].discards@.len() + p[3].discards@.len()) as int
}

proof fn lemma_cnt_nonneg(s: Seq<Tile136>, x: Tile136)
    ensures
        cnt(s, x) >= 0,
    decreases s.len(),
{
    if s.len() > 0 {
        lemma_cnt_nonneg(s.drop_last(), x);
    }
}

proof fn lemma_cnt_append(a: Seq<Tile136>, b: Seq<Tile136>, x: Tile136)
    ensures
        cnt(a + b, x) == cnt(a, x) + cnt(b, x),
    decreases b.len(),
{
    if b.len() == 0 {
        assert(a + b =~= a);
    } else {
        assert((a + b).drop_last() =~= a + b.drop_last());
        lemma_cnt_append(a, b.drop_last(), x);
    }
}

proof fn lemma_cnt_multiset(s: Seq<Tile136>, x: Tile136)
    ensures
        cnt(s, x) == s.to_multiset().count(x),
    decreases s.len(),
{
    broadcast use vstd::seq_lib::group_to_multiset_ensures;

    if s.len() > 0 {
        lemma_cnt_multiset(s.drop_last(), x);
        assert(s =~= s.drop_last().push(s.last()));
        vstd::seq_lib::to_multiset_build(s.drop_last(), s.last());
    } else {
        assert(s.to_multiset() =~= vstd::multiset::Multiset::<Tile136>::empty());
    }
}

proof fn lemma_cnt_full_prefix(n: int, x: Tile136)
    requires
        0 <= n <= 136,
    ensures
        cnt(full_set().take(n), x) == (if x < n { 1int } else { 0int }),
    decreases n,
{
    if n > 0 {
        assert(full_set().take(n).drop_last() =~= full_set().take(n - 1));
        lemma_cnt_full_prefix(n - 1, x);
    } else {
        assert(full_set().take(0).len() == 0);
    }
}

/// A wall holding each tile of the set once holds `x` once if it is a tile.
proof fn lemma_cnt_wall(wall: Seq<Tile136>, x: Tile136)
    requires
        wall.to_multiset() == full_set().to_multiset(),
    ensures
        cnt(wall, x) == (if x < 136 { 1int } else { 0int }),
{
    lemma_cnt_multiset(wall, x);
    lemma_cnt_multiset(full_set(), x);
    lemma_cnt_full_prefix(136, x);
    assert(full_set().take(136) =~= full_set());
}

/// Taking every copy of `d` out of `s`.
proof fn lemma_cnt_without(s: Seq<Tile136>, d: Tile136, x: Tile136)
    ensures
        cnt(without_tile(s, d), x) == (if x == d { 0int } else { cnt(s, x) }),
    decreases s.len(),
{
    if s.len() > 0 {
        lemma_cnt_without(s.drop_last(), d, x);
        if s.last() != d {
            assert(without_tile(s, d).drop_last() =~= without_tile(s.drop_last(), d));
        }
    }
}

proof fn lemma_cnt_sorted(a: Seq<Tile136>, b: Seq<Tile136>, x: Tile136)
    requires
        a.to_multiset() == b.to_multiset(),
    ensures
        cnt(a, x) == cnt(b, x),
{
    lemma_cnt_multiset(a, x);
    lemma_cnt_multiset(b, x);
}

/// Drawing the next tile of the wall into a hand.
proof fn lemma_cnt_draw(wall: Seq<Tile136>, pos: int, h: Seq<Tile136>, x: Tile136)
    requires
        0 <= pos < wall.len(),
    ensures
        cnt(h.push(wall[pos]), x) + cnt(wall.skip(pos + 1), x) == cnt(h, x) + cnt(wall.skip(pos), x),
{
    assert(wall.skip(pos) =~= seq![wall[pos]] + wall.skip(pos + 1));
    lemma_cnt_append(seq![wall[pos]], wall.skip(pos + 1), x);
    let one = seq![wall[pos]];
    assert(one.drop_last() =~= Seq::<Tile136>::empty());
    assert(cnt(one.drop_last(), x) == 0);
    assert(one.last() == wall[pos]);
    assert(cnt(one, x) == (if wall[pos] == x { 1int } else { 0int }));
    assert(h.push(wall[pos]).drop_last() =~= h);
    assert(h.push(wall[pos]).last() == wall[pos]);
}

proof fn lemma_cnt_push(s: Seq<Tile136>, d: Tile136, x: Tile136)
    ensures
        cnt(s.push(d), x) == cnt(s, x) + (if d == x { 1int } else { 0int }),
{
    assert(s.push(d).drop_last() =~= s);
}

/// No tile is counted twice: a tile held by player `t` is held by it once.
proof fn lemma_held_once(p: [SimPlayer; 4], wall: Seq<Tile136>, pos: int, t: int, d: Tile136)
    requires
        tiles_accounted(p, wall, pos),
        0 <= t < 4,
    ensures
        0 <= cnt(p[t].hand@, d) <= 1,
        cnt(p[t].hand@, d) >= 1 ==> d < 136,
{
    assert(held(p, d) + cnt(wall.skip(pos), d) + thrown(p, d) == (if d < 136 { 1int } else { 0int }));
    lemma_cnt_nonneg(p[0].hand@, d);
    lemma_cnt_nonneg(p[1].hand@, d);
    lemma_cnt_nonneg(p[2].hand@, d);
    lemma_cnt_nonneg(p[3].hand@, d);
    lemma_cnt_nonneg(p[0].discards@, d);
    lemma_cnt_nonneg(p[1].discards@, d);
    lemma_cnt_nonneg(p[2].discards@, d);
    lemma_cnt_nonneg(p[3].discards@, d);
    lemma_cnt_nonneg(wall.skip(pos), d);
}

/// A discard by player `t` of a tile `d` it holds moves that one tile from its
/// hand to its discard pile.
proof fn lemma_discard_accounted(
    p: [SimPlayer; 4],
    q: [SimPlayer; 4],
    wall: Seq<Tile136>,
    pos: int,
    t: int,
    d: Tile136,
)
    requires
        tiles_accounted(p, wall, pos),
        0 <= t < 4,
        cnt(p[t].hand@, d) >= 1,
        q[t].hand@ == without_tile(p[t].hand@, d),
        q[t].discards@ == p[t].discards@.push(d),
        forall|i: int| 0 <= i < 4 && i != t ==> #[trigger] q[i].hand@ == p[i].hand@ && q[i].discards@ == p[i].discards@,
    ensures
        tiles_accounted(q, wall, pos),
        cnt(p[t].hand@, d) == 1,
        d < 136,
{
    lemma_held_once(p, wall, pos, t, d);
    assert forall|x: Tile136|
        #![trigger held(q, x)]
        held(q, x) + cnt(wall.skip(pos), x) + thrown(q, x) == (if x < 136 { 1int } else { 0int }) by {
        assert(held(p, x) + cnt(wall.skip(pos), x) + thrown(p, x) == (if x < 136 { 1int } else { 0int }));
        lemma_cnt_without(p[t].hand@, d, x);
        lemma_cnt_push(p[t].discards@, d, x);
        assert(q[0].hand@ == p[0].hand@ || t == 0);
        assert(q[1].hand@ == p[1].hand@ || t == 1);
        assert(q[2].hand@ == p[2].hand@ || t == 2);
        assert(q[3].hand@ == p[3].hand@ || t == 3);
        assert(q[0].discards@ == p[0].discards@ || t == 0);
        assert(q[1].discards@ == p[1].discards@ || t == 1);
        assert(q[2].discards@ == p[2].discards@ || t == 2);
        assert(q[3].discards@ == p[3].discards@ || t == 3);
    }
}

/// Player `t` drawing the tile at `pos` keeps every tile accounted for.
proof fn lemma_draw_accounted(p: [SimPlayer; 4], q: [SimPlayer; 4], wall: Seq<Tile136>, pos: int, t: int)
    requires
        tiles_accounted(p, wall, pos),
        0 <= t < 4,
        0 <= pos < wall.len(),
        q[t].hand@ == p[t].hand@.push(wall[pos]),
        forall|i: int| 0 <= i < 4 ==> #[trigger] q[i].discards@ == p[i].discards@,
        forall|i: int| 0 <= i < 4 && i != t ==> #[trigger] q[i].hand@ == p[i].hand@,
    ensures
        tiles_accounted(q, wall, pos + 1),
{
    assert forall|x: Tile136|
        #![trigger held(q, x)]
        held(q, x) + cnt(wall.skip(pos + 1), x) + thrown(q, x) == (if x < 136 { 1int } else { 0int }) by {
        assert(held(p, x) + cnt(wall.skip(pos), x) + thrown(p, x) == (if x < 136 { 1int } else { 0int }));
        lemma_cnt_draw(wall, pos, p[t].hand@, x);
        assert(q[0].hand@ == p[0].hand@ || t == 0);
        assert(q[1].hand@ == p[1].hand@ || t == 1);
        assert(q[2].hand@ == p[2].hand@ || t == 2);
        assert(q[3].hand@ == p[3].hand@ || t == 3);
        assert(q[0].discards@ == p[0].discards@);
        assert(q[1].discards@ == p[1].discards@);
        assert(q[2].discards@ == p[2].discards@);
        assert(q[3].discards@ == p[3].discards@);
    }
}

/// Players whose hands and discards are unchanged keep the same account.
proof fn lemma_same_tiles_accounted(p: [SimPlayer; 4], q: [SimPlayer; 4], wall: Seq<Tile136>, pos: int)
    requires
        tiles_accounted(p, wall, pos),
        forall|i: int| 0 <= i < 4 ==> #[trigger] q[i].hand@ == p[i].hand@ && q[i].discards@ == p[i].discards@,
    ensures
        tiles_accounted(q, wall, pos),
{
    assert(q[0].hand@ == p[0].hand@ && q[0].discards@ == p[0].discards@);
    assert(q[1].hand@ == p[1].hand@ && q[1].discards@ == p[1].discards@);
    assert(q[2].hand@ == p[2].hand@ && q[2].discards@ == p[2].discards@);
    assert(q[3].hand@ == p[3].hand@ && q[3].discards@ == p[3].discards@);
    assert forall|x: Tile136|
        #![trigger held(q, x)]
        held(q, x) + cnt(wall.skip(pos), x) + thrown(q, x) == (if x < 136 { 1int } else { 0int }) by {
        assert(held(p, x) == held(q, x));
        assert(thrown(p, x) == thrown(q, x));
        assert(held(p, x) + cnt(wall.skip(pos), x) + thrown(p, x) == (if x < 136 { 1int } else { 0int }));
    }
}

proof fn lemma_cnt_without_len(s: Seq<Tile136>, d: Tile136)
    ensures
        without_tile(s, d).len() + cnt(s, d) == s.len(),
    decreases s.len(),
{
    if s.len() > 0 {
        lemma_cnt_without_len(s.drop_last(), d);
    }
}

proof fn lemma_cnt_index(s: Seq<Tile136>, k: int)
    requires
        0 <= k < s.len(),
    ensures
        cnt(s, s[k]) >= 1,
    decreases s.len(),
{
    if k < s.len() - 1 {
        assert(s.drop_last()[k] == s[k]);
        lemma_cnt_index(s.drop_last(), k);
        lemma_cnt_nonneg(s.drop_last(), s[k]);
    } else {
        lemma_cnt_nonneg(s.drop_last(), s[k]);
    }
}

/// The state `s0` after dealing the round from `wall`, starting from `old`:
/// the wall in place, thirteen tiles to each seat from the dealer on (each
/// hand sorted), the first dora indicator shown, and empty discards, no melds
/// and no riichi.
pub open spec fn dealt<A: AiStrategy>(old: Simulator<A>, wall: Seq<Tile136>, s0: Simulator<A>) -> bool {
    &&& s0 == (Simulator {
        players: s0.players,
        wall: s0.wall,
        wall_pos: 52,
        dead_wall_start: 122,
        dora_indicators: s0.dora_indicators,
        log: s0.log,
        ..old
    })
    &&& s0.wall@ == wall
    &&& s0.dora_indicators@ == seq![wall[122]]
    &&& forall|j: int|
        0 <= j < 4 ==> {
            let p = #[trigger] s0.players[(old.dealer + j) % 4];
            &&& sorted(p.hand@)
            &&& p.hand@.to_multiset() == wall.subrange(13 * j, 13 * j + 13).to_multiset()
        }
    &&& forall|i: int|
        0 <= i < 4 ==> {
            let p = #[trigger] s0.players[i];
            &&& p.discards@.len() == 0
            &&& p.melds@.len() == 0
            &&& !p.riichi
            &&& p.score == old.players[i].score
            &&& p.seat == old.players[i].seat
        }
}

/// Player `t` wins by tsumo in `s` (after drawing `tile`): the hand is
/// complete, and the bot claims it (`bot_claims`) or the opponent is in riichi.
pub open spec fn tsumo_claim<A: AiStrategy>(s: Simulator<A>, t: int, tile: Tile136) -> bool {
    &&& spec_shanten(tile_counts(s.players[t].hand@)) < 0
    &&& if t == 0 {
        bot_claims(s, tile, true)
    } else {
        s.players[t].riichi
    }
}

/// `s1` is `s` after player `t` drew the next tile of the wall.
pub open spec fn drew<A: AiStrategy>(s: Simulator<A>, t: int, s1: Simulator<A>) -> bool {
    &&& s.wall_pos < s.wall@.len()
    &&& s1 == (Simulator { players: s1.players, wall_pos: (s.wall_pos + 1) as usize, ..s })
    &&& forall|i: int|
        0 <= i < 4 ==> #[trigger] s1.players[i] == (SimPlayer { hand: s1.players[i].hand, ..s.players[i] })
    &&& forall|i: int| 0 <= i < 4 && i != t ==> (#[trigger] s1.players[i]).hand@ == s.players[i].hand@
    &&& s1.players[t].hand@ == s.players[t].hand@.push(s.wall@[s.wall_pos as int])
}

/// Player `t` is due to declare riichi in `s`: not in riichi yet, no open
/// meld, and a tenpai (or complete) hand.
pub open spec fn riichi_due<A: AiStrategy>(s: Simulator<A>, t: int) -> bool {
    &&& !s.players[t].riichi
    &&& all_ankan(s.players[t].melds@)
    &&& spec_shanten(tile_counts(s.players[t].hand@)) <= 0
}

/// The bot's strategy, asked in its view of `s`, answers `yes` to riichi.
pub open spec fn bot_says_riichi<A: AiStrategy>(s: Simulator<A>, yes: bool) -> bool {
    exists|gs: GameState, r: (bool, Option<Tile136>)|
        #![trigger bot_view(s, gs), call_ensures(A::should_riichi, (&s.bot_ai, &gs), r)]
        bot_view(s, gs) && call_ensures(A::should_riichi, (&s.bot_ai, &gs), r) && r.0 == yes
}

/// `s2` is `s` after player `t` declared riichi: one stick from its score
/// into the pot.
pub open spec fn declares<A: AiStrategy>(s: Simulator<A>, t: int, s2: Simulator<A>) -> bool {
    &&& s2 == (Simulator {
        players: s2.players,
        riichi_sticks: (s.riichi_sticks + 1) as i32,
        log: s2.log,
        ..s
    })
    &&& forall|i: int|
        0 <= i < 4 ==> #[trigger] s2.players[i] == (if i == t {
            SimPlayer { riichi: true, score: (s.players[i].score - 1000) as i32, ..s.players[i] }
        } else {
            s.players[i]
        })
}

/// `s2` is `s` but for the log.
pub open spec fn keeps<A: AiStrategy>(s: Simulator<A>, s2: Simulator<A>) -> bool {
    s2 == (Simulator { log: s2.log, ..s })
}

/// The riichi step of player `t` from `s` to `s2`: a due opponent declares;
/// the bot declares when due and its strategy agrees.
pub open spec fn riichi_stepped<A: AiStrategy>(s: Simulator<A>, t: int, s2: Simulator<A>) -> bool {
    if !riichi_due(s, t) {
        keeps(s, s2)
    } else if t != 0 {
        declares(s, t, s2)
    } else {
        (bot_says_riichi(s, true) && declares(s, t, s2)) || (bot_says_riichi(s, false) && keeps(s, s2))
    }
}

/// `SimpleAi`'s discard from hand `h`.
pub open spec fn simple_choice(h: Seq<Tile136>, riichi: bool) -> Tile136 {
    if riichi {
        h.last()
    } else {
        h[best_discard_index(h, h.len() as int)]
    }
}

/// The bot discards `d` in `s`: the tile its strategy chooses in its view
/// of `s` if the bot holds it, else its last tile.
pub open spec fn bot_discards<A: AiStrategy>(s: Simulator<A>, d: Tile136) -> bool {
    exists|gs: GameState, c: Tile136|
        #![trigger bot_view(s, gs), call_ensures(A::choose_discard, (&s.bot_ai, &gs), c)]
        bot_view(s, gs) && call_ensures(A::choose_discard, (&s.bot_ai, &gs), c) && d == (if cnt(
            s.players[0].hand@,
            c,
        ) >= 1 {
            c
        } else {
            s.players[0].hand@.last()
        })
}

/// `s3` is `s` after player `t` discarded (the tile its strategy chose):
/// the tile left the hand and joined its discards.
pub open spec fn discarded<A: AiStrategy>(s: Simulator<A>, t: int, s3: Simulator<A>) -> bool {
    let d = s3.players[t].discards@.last();
    &&& if t == 0 {
        bot_discards(s, d)
    } else {
        d == simple_choice(s.players[t].hand@, s.players[t].riichi)
    }
    &&& s3 == (Simulator { players: s3.players, log: s3.log, ..s })
    &&& forall|i: int|
        0 <= i < 4 ==> #[trigger] s3.players[i] == (SimPlayer {
            hand: s3.players[i].hand,
            discards: s3.players[i].discards,
            ..s.players[i]
        })
    &&& forall|i: int|
        0 <= i < 4 && i != t ==> (#[trigger] s3.players[i]).hand@ == s.players[i].hand@
            && s3.players[i].discards@ == s.players[i].discards@
    &&& s3.players[t].hand@ == without_tile(s.players[t].hand@, d)
    &&& s3.players[t].discards@ == s.players[t].discards@.push(d)
}

/// One turn of player `t` from `s` to `s3` that does not end the round: a
/// draw that is no tsumo, the riichi step, a discard nobody wins by ron.
pub open spec fn turn_played<A: AiStrategy>(s: Simulator<A>, t: int, s3: Simulator<A>) -> bool {
    exists|s1: Simulator<A>, s2: Simulator<A>|
        #![trigger drew(s, t, s1), discarded(s2, t, s3)]
        {
            &&& s.wall_pos < 108
            &&& drew(s, t, s1)
            &&& !tsumo_claim(s1, t, s.wall@[s.wall_pos as int])
            &&& riichi_stepped(s1, t, s2)
            &&& discarded(s2, t, s3)
            &&& ron_winner_from(s3, t, s3.players[t].discards@.last(), 0) is None
        }
}

/// How the turn of player `t` from `s` ends the round as `end`, with the
/// players `mid` at that moment: a draw when the live wall is used up; a
/// tsumo when the drawn tile completes a claimed hand; a ron when the
/// discard completes a claimed hand.
pub open spec fn round_ended<A: AiStrategy>(s: Simulator<A>, t: int, end: RoundEnd, mid: [SimPlayer; 4]) -> bool {
    match end {
        RoundEnd::Draw => s.wall_pos >= 108 && mid == s.players,
        RoundEnd::Tsumo { winner } => {
            &&& winner as int == t
            &&& s.wall_pos < 108
            &&& exists|s1: Simulator<A>|
                #[trigger] drew(s, t, s1) && tsumo_claim(s1, t, s.wall@[s.wall_pos as int]) && mid == s1.players
        },
        RoundEnd::Ron { winner, discarder } => {
            &&& discarder as int == t
            &&& s.wall_pos < 108
            &&& exists|s1: Simulator<A>, s2: Simulator<A>, s3: Simulator<A>|
                #![trigger drew(s, t, s1), discarded(s2, t, s3)]
                {
                    &&& drew(s, t, s1)
                    &&& !tsumo_claim(s1, t, s.wall@[s.wall_pos as int])
                    &&& riichi_stepped(s1, t, s2)
                    &&& discarded(s2, t, s3)
                    &&& ron_winner_from(s3, t, s3.players[t].discards@.last(), 0) == Some(winner)
                    &&& mid == s3.players
                }
        },
    }
}

/// The round played by the rules from the dealt state `s0`: turns from the
/// dealer on (`turn_played`), until a turn ends it as `end` with the players
/// `mid` (`round_ended`).
pub open spec fn played_by_rules<A: AiStrategy>(s0: Simulator<A>, end: RoundEnd, mid: [SimPlayer; 4]) -> bool {
    exists|tr: Seq<Simulator<A>>|
        #![trigger tr.len()]
        {
            &&& tr.len() >= 1
            &&& tr[0] == s0
            &&& forall|k: int|
                0 <= k < tr.len() - 1 ==> #[trigger] turn_played(tr[k], (s0.dealer + k) % 4, tr[k + 1])
            &&& round_ended(tr.last(), (s0.dealer + tr.len() - 1) % 4, end, mid)
        }
}

/// How a round ended.
#[derive(PartialEq, Eq, Structural, Clone, Copy, Debug)]
pub enum RoundEnd {
    /// The winner completed the hand with a drawn tile.
    Tsumo { winner: usize },
    /// The winner completed the hand with the discarder's last discard.
    Ron { winner: usize, discarder: usize },
    /// The live wall ran out.
    Draw,
}

/// What player `i` gains (or pays, if negative) when the round ends as `end`
/// with the players `mid` (riichi sticks already paid into the pot), the
/// dealer `dealer` and `honba` counters: a tsumo as `apply_tsumo` pays it, a
/// ron as `apply_ron`, a draw as `draw_change`. The winner takes the pot.
pub open spec fn score_change(end: RoundEnd, mid: [SimPlayer; 4], dealer: int, honba: int, i: int) -> int {
    let bonus = 1000 * flag_count(riichi_flags(mid), 4);
    match end {
        RoundEnd::Tsumo { winner } => {
            let w = winner as int;
            let payment = (if w == dealer { 400int } else { 300int }) + honba * 100;
            if i == w {
                if w == dealer {
                    payment + bonus
                } else {
                    payment * 2 / 4 + 2 * (payment / 4) + bonus
                }
            } else if w == dealer {
                -(payment / 3)
            } else if i == dealer {
                -(payment * 2 / 4)
            } else {
                -(payment / 4)
            }
        },
        RoundEnd::Ron { winner, discarder } => {
            let payment = (if winner as int == dealer { 500int } else { 350int }) + honba * 100;
            if i == winner as int {
                payment + bonus
            } else if i == discarder as int {
                -payment
            } else {
                0
            }
        },
        RoundEnd::Draw => draw_change(mid, i),
    }
}

/// Why the round could end as `end` with the players `mid`: a tsumo winner
/// holds a complete hand, a ron winner completes the hand with the
/// discarder's last discard, and an opponent wins only in riichi; a draw
/// comes once all 56 tiles of the live wall past the deal have been drawn
/// and discarded.
pub open spec fn ended_as(end: RoundEnd, mid: [SimPlayer; 4]) -> bool {
    match end {
        RoundEnd::Tsumo { winner } => {
            &&& winner < 4
            &&& spec_shanten(tile_counts(mid[winner as int].hand@)) < 0
            &&& (winner != 0 ==> mid[winner as int].riichi)
        },
        RoundEnd::Ron { winner, discarder } => {
            &&& winner < 4
            &&& discarder < 4
            &&& winner != discarder
            &&& mid[discarder as int].discards@.len() > 0
            &&& spec_shanten(
                tile_counts(mid[winner as int].hand@.push(mid[discarder as int].discards@.last())),
            ) < 0
            &&& (winner != 0 ==> mid[winner as int].riichi)
        },
        RoundEnd::Draw => pile_size(mid) == 56,
    }
}

/// The dealer and honba after a round ending as `end`: a win keeps both; at
/// a draw a tenpai dealer keeps the deal with one more honba, else the deal
/// passes on and the honba is reset.
pub open spec fn next_deal(end: RoundEnd, mid: [SimPlayer; 4], dealer: int, honba: int) -> (int, int) {
    match end {
        RoundEnd::Draw => if tenpai_flags(mid)[dealer] {
            (dealer, honba + 1)
        } else {
            ((dealer + 1) % 4, 0)
        },
        _ => (dealer, honba),
    }
}

/// A round that started from the players `base`, dealer `dealer` and
/// `honba`, reached the players `mid` (each riichi paid from the score) and
/// ended as `end`, leaving the players `fin`, the dealer `dealer2` and
/// `honba2`: only the scores change at the end, by `score_change`; every
/// hand then holds thirteen tiles, fourteen for a tsumo winner.
pub open spec fn round_result(
    end: RoundEnd,
    base: [SimPlayer; 4],
    mid: [SimPlayer; 4],
    fin: [SimPlayer; 4],
    dealer: int,
    honba: int,
    dealer2: int,
    honba2: int,
) -> bool {
    &&& forall|i: int|
        0 <= i < 4 ==> #[trigger] mid[i].score == base[i].score - (if mid[i].riichi { 1000int } else { 0int })
    &&& ended_as(end, mid)
    &&& forall|i: int|
        0 <= i < 4 ==> #[trigger] fin[i] == (SimPlayer {
            score: (mid[i].score + score_change(end, mid, dealer, honba, i)) as i32,
            ..mid[i]
        })
    &&& (dealer2, honba2) == next_deal(end, mid, dealer, honba)
    &&& forall|i: int|
        0 <= i < 4 ==> (#[trigger] fin[i]).hand@.len() == (if end == (RoundEnd::Tsumo { winner: i as usize }) {
            14int
        } else {
            13int
        })
}

/// A round played by the rules takes the table from `before` to `after`:
/// on a wall holding each tile once (the one `after` shows), dealt from
/// `before` (`dealt`), played turn by turn (`played_by_rules`) to an end that
/// is settled as `round_result` says.
pub open spec fn round_played<A: AiStrategy>(before: Simulator<A>, after: Simulator<A>) -> bool {
    &&& after.wall@.len() == 136
    &&& after.wall@.to_multiset() == full_set().to_multiset()
    &&& exists|s0: Simulator<A>, end: RoundEnd, mid: [SimPlayer; 4]|
        #![trigger dealt(before, after.wall@, s0), played_by_rules(s0, end, mid)]
        {
            &&& dealt(before, after.wall@, s0)
            &&& played_by_rules(s0, end, mid)
            &&& round_result(
                end,
                before.players,
                mid,
                after.players,
                before.dealer as int,
                before.honba as int,
                after.dealer as int,
                after.honba as int,
            )
        }
}

/// `s` is set for round `q` of a hanchan: East 1-4, then South 1-4.
pub open spec fn round_of<A: AiStrategy>(s: Simulator<A>, q: int) -> bool {
    s.round as int == q && s.round_wind == (if q < 4 { 27u8 } else { 28u8 })
}

/// A trace of played turns grows by one more played turn.
proof fn lemma_trace_push<A: AiStrategy>(tr: Seq<Simulator<A>>, s0: Simulator<A>, s3: Simulator<A>)
    requires
        tr.len() >= 1,
        forall|j: int| 0 <= j < tr.len() - 1 ==> #[trigger] turn_played(tr[j], (s0.dealer + j) % 4, tr[j + 1]),
        turn_played(tr.last(), (s0.dealer + tr.len() - 1) % 4, s3),
    ensures
        forall|j: int|
            0 <= j < tr.push(s3).len() - 1 ==> #[trigger] turn_played(
                tr.push(s3)[j],
                (s0.dealer + j) % 4,
                tr.push(s3)[j + 1],
            ),
{
    let t2 = tr.push(s3);
    assert forall|j: int| 0 <= j < t2.len() - 1 implies #[trigger] turn_played(t2[j], (s0.dealer + j) % 4, t2[j + 1]) by {
        if j < tr.len() - 1 {
            assert(t2[j] == tr[j] && t2[j + 1] == tr[j + 1]);
        } else {
            assert(t2[j] == tr.last() && t2[j + 1] == s3);
        }
    }
}

/// A ron paid as `apply_ron` pays it is a round ending in that ron.
proof fn lemma_ron_result<A: AiStrategy>(
    base: [SimPlayer; 4],
    mid: Simulator<A>,
    fin: [SimPlayer; 4],
    w: usize,
    d: usize,
    tile: Tile136,
)
    requires
        in_round(mid, base),
        d < 4,
        mid.players[d as int].discards@.len() > 0,
        mid.players[d as int].discards@.last() == tile,
        ron_winner_from(mid, d as int, tile, 0) == Some(w),
        forall|i: int| 0 <= i < 4 ==> (#[trigger] mid.players[i]).hand@.len() == 13,
        forall|i: int|
            0 <= i < 4 ==> #[trigger] fin[i] == (SimPlayer { score: fin[i].score, ..mid.players[i] }),
        ({
            let payment = (if w == mid.dealer { 500int } else { 350int }) + mid.honba * 100;
            let bonus = mid.riichi_sticks * 1000;
            forall|i: int|
                0 <= i < 4 ==> #[trigger] fin[i].score == mid.players[i].score + if i == w {
                    payment + bonus
                } else if i == d {
                    -payment
                } else {
                    0
                }
        }),
    ensures
        round_result(
            RoundEnd::Ron { winner: w, discarder: d },
            base,
            mid.players,
            fin,
            mid.dealer as int,
            mid.honba as int,
            mid.dealer as int,
            mid.honba as int,
        ),
{
    lemma_ron_winner(mid, d as int, tile, 0);
    let e = RoundEnd::Ron { winner: w, discarder: d };
    assert forall|i: int| 0 <= i < 4 implies #[trigger] fin[i] == (SimPlayer {
        score: (mid.players[i].score + score_change(e, mid.players, mid.dealer as int, mid.honba as int, i)) as i32,
        ..mid.players[i]
    }) by {
        assert(fin[i] == (SimPlayer { score: fin[i].score, ..mid.players[i] }));
    }
}

proof fn lemma_perm_tiles(a: Seq<Tile136>, b: Seq<Tile136>)
    requires
        a.to_multiset() == b.to_multiset(),
        forall|i: int| 0 <= i < b.len() ==> #[trigger] b[i] < 136,
    ensures
        a.len() == b.len(),
        forall|i: int| 0 <= i < a.len() ==> #[trigger] a[i] < 136,
{
    a.to_multiset_ensures();
    b.to_multiset_ensures();
    assert forall|i: int| 0 <= i < a.len() implies #[trigger] a[i] < 136 by {
        assert(a.contains(a[i]));
        assert(a.to_multiset().count(a[i]) > 0);
        assert(b.to_multiset().count(a[i]) > 0);
        assert(b.contains(a[i]));
        let j = choose|j: int| 0 <= j < b.len() && b[j] == a[i];
    }
}

proof fn lemma_without_tile(h: Seq<Tile136>, d: Tile136)
    ensures
        without_tile(h, d).len() <= h.len(),
        (forall|i: int| 0 <= i < h.len() ==> #[trigger] h[i] < 136) ==> (forall|i: int|
            0 <= i < without_tile(h, d).len() ==> #[trigger] without_tile(h, d)[i] < 136),
    decreases h.len(),
{
    if h.len() > 0 {
        lemma_without_tile(h.drop_last(), d);
        if forall|i: int| 0 <= i < h.len() ==> #[trigger] h[i] < 136 {
            assert forall|i: int| 0 <= i < h.drop_last().len() implies #[trigger] h.drop_last()[i] < 136 by {
                assert(h.drop_last()[i] == h[i]);
            }
            assert(h.last() == h[h.len() - 1]);
        }
    }
}


proof fn lemma_small_countable(h: Seq<Tile136>)
    requires
        h.len() <= 127,
        forall|k: int| 0 <= k < h.len() ==> #[trigger] h[k] < 136,
    ensures
        countable(h),
{
    assert forall|t: int| 0 <= t < 34 implies #[trigger] type_count(h, t) <= 127 by {
        lemma_type_count_le_len(h, t);
    }
}

proof fn lemma_extends_trans(a: Seq<String>, b: Seq<String>, c: Seq<String>)
    requires
        extends(a, b),
        extends(b, c),
    ensures
        extends(a, c),
{
    assert(a.take(c.len() as int) =~= b.take(c.len() as int));
}

proof fn lemma_extends_push(a: Seq<String>, x: String)
    ensures
        extends(a.push(x), a),
{
    assert(a.push(x).take(a.len() as int) =~= a);
}

proof fn lemma_ron_winner<A: AiStrategy>(sim: Simulator<A>, discarder: int, tile: Tile136, pid: int)
    requires
        0 <= pid,
    ensures
        ron_winner_from(sim, discarder, tile, pid) matches Some(w) ==> pid <= w < 4 && w != discarder
            && spec_shanten(tile_counts(sim.players[w as int].hand@.push(tile))) < 0
            && (w != 0 ==> sim.players[w as int].riichi),
    decreases 4 - pid,
{
    if pid < 4 {
        lemma_ron_winner(sim, discarder, tile, pid + 1);
    }
}


fn all_ankan_melds(melds: &Vec<SimMeld>) -> (r: bool)
    ensures
        r == all_ankan(melds@),
{
    let mut k: usize = 0;
    while k < melds.len()
        invariant
            k <= melds@.len(),
            forall|q: int| 0 <= q < k ==> (#[trigger] melds@[q]).mtype == MeldType::Ankan,
        decreases melds@.len() - k,
    {
        if melds[k].mtype != MeldType::Ankan {
            return false;
        }
        k = k + 1;
    }
    true
}


/// The scores of a round in progress: each player in riichi has paid one
/// stick into the pot, so scores and pot together still hold the starting sum.
proof fn lemma_riichi_sum(base: [SimPlayer; 4], p: [SimPlayer; 4])
    requires
        forall|i: int|
            0 <= i < 4 ==> #[trigger] p[i].score == base[i].score - (if p[i].riichi { 1000int } else { 0int }),
    ensures
        score_sum(p) + 1000 * flag_count(riichi_flags(p), 4) == score_sum(base),
        0 <= flag_count(riichi_flags(p), 4) <= 4,
{
    reveal_with_fuel(flag_count, 5);
    assert(p[0].score == base[0].score - (if p[0].riichi { 1000int } else { 0int }));
    assert(p[1].score == base[1].score - (if p[1].riichi { 1000int } else { 0int }));
    assert(p[2].score == base[2].score - (if p[2].riichi { 1000int } else { 0int }));
    assert(p[3].score == base[3].score - (if p[3].riichi { 1000int } else { 0int }));
}

/// Closing a round: if the settlement moved the scores by the pot plus a
/// rounding of -1 to 2 points and by at most `limit` per player, the round
/// is settled against its starting scores.
proof fn lemma_round_close(base: [SimPlayer; 4], mid: [SimPlayer; 4], sticks: int, fin: [SimPlayer; 4], rounding: int)
    requires
        forall|i: int|
            0 <= i < 4 ==> #[trigger] mid[i].score == base[i].score - (if mid[i].riichi { 1000int } else { 0int }),
        sticks == flag_count(riichi_flags(mid), 4),
        score_sum(fin) == score_sum(mid) + 1000 * sticks + rounding,
        -1 <= rounding <= 2,
        forall|i: int| 0 <= i < 4 ==> -30000 <= #[trigger] fin[i].score - mid[i].score <= 30000,
    ensures
        round_settled(base, fin, 0),
{
    lemma_riichi_sum(base, mid);
    assert forall|i: int| 0 <= i < 4 implies -40000 <= #[trigger] fin[i].score - base[i].score <= 40000 by {
        assert(mid[i].score == base[i].score - (if mid[i].riichi { 1000int } else { 0int }));
        assert(-30000 <= fin[i].score - mid[i].score <= 30000);
    }
}

/// One more player in riichi adds one to the count.
proof fn lemma_riichi_declared(a: [SimPlayer; 4], b: [SimPlayer; 4], t: int)
    requires
        0 <= t < 4,
        !a[t].riichi,
        b[t].riichi,
        forall|i: int| 0 <= i < 4 && i != t ==> #[trigger] b[i].riichi == a[i].riichi,
    ensures
        flag_count(riichi_flags(b), 4) == flag_count(riichi_flags(a), 4) + 1,
{
    reveal_with_fuel(flag_count, 5);
    assert(b[0].riichi == a[0].riichi || t == 0);
    assert(b[1].riichi == a[1].riichi || t == 1);
    assert(b[2].riichi == a[2].riichi || t == 2);
    assert(b[3].riichi == a[3].riichi || t == 3);
}


proof fn lemma_draw_change_bounds(p: [SimPlayer; 4], i: int)
    ensures
        -1000 <= draw_change(p, i) <= 4000,
{
    let f = tenpai_flags(p);
    let count = flag_count(f, 4);
    lemma_flag_count_bounds(f, 4);
    if 1 <= count <= 3 {
        assert(1000 * (4 - count) / count <= 3000) by (nonlinear_arith)
            requires
                1 <= count <= 3,
        ;
        assert(1000 * (4 - count) / count >= 0) by (nonlinear_arith)
            requires
                1 <= count <= 3,
        ;
    }
}


/// Player `j` places ahead of player `i`: a higher score, or the same score
/// and an earlier seat.
pub open spec fn ranks_before(p: [SimPlayer; 4], j: int, i: int) -> bool {
    p[j].score > p[i].score || (p[j].score == p[i].score && j < i)
}

/// The placement of player `i` (0 for first): how many players place ahead.
pub open spec fn placement(p: [SimPlayer; 4], i: int) -> int {
    (if ranks_before(p, 0, i) { 1int } else { 0int }) + (if ranks_before(p, 1, i) { 1int } else { 0int }) + (
    if ranks_before(p, 2, i) {
        1int
    } else {
        0int
    }) + (if ranks_before(p, 3, i) { 1int } else { 0int })
}

/// The placement bonus in points: +2000, +1000, -1000, -2000 from first to last.
pub open spec fn uma_points(rank: int) -> int {
    if rank == 0 {
        2000
    } else if rank == 1 {
        1000
    } else if rank == 2 {
        -1000
    } else {
        -2000
    }
}

/// The four players take the four placements, one each, so the placement
/// bonuses cancel out.
pub proof fn lemma_placements(p: [SimPlayer; 4])
    ensures
        forall|i: int| 0 <= i < 4 ==> 0 <= #[trigger] placement(p, i) <= 3,
        forall|i: int, j: int| 0 <= i < 4 && 0 <= j < 4 && i != j ==> placement(p, i) != placement(p, j),
        uma_points(placement(p, 0)) + uma_points(placement(p, 1)) + uma_points(placement(p, 2)) + uma_points(
            placement(p, 3),
        ) == 0,
{
    assert forall|i: int, j: int| 0 <= i < 4 && 0 <= j < 4 && i != j implies placement(p, i) != placement(
        p,
        j,
    ) by {
        if ranks_before(p, i, j) {
            assert(placement(p, j) >= placement(p, i) + 1);
        } else {
            assert(ranks_before(p, j, i));
            assert(placement(p, i) >= placement(p, j) + 1);
        }
    }
}

/// The local game: four players, the wall, and the table's counters.
pub struct Simulator<A: AiStrategy> {
    pub players: [SimPlayer; 4],
    pub wall: Vec<Tile136>,
    pub wall_pos: usize,
    pub dead_wall_start: usize,
    pub dora_indicators: Vec<Tile136>,
    pub round: u8,
    pub honba: u8,
    pub dealer: usize,
    pub round_wind: Tile34,
    pub bot_ai: A,
    pub log: Vec<String>,
    /// Accumulated riichi sticks
    pub riichi_sticks: i32,
}

fn push_scores(s: &mut String, p: &[SimPlayer; 4])
    ensures
        final(s)@ == old(s)@ + scores_text(*p),
{
    push_str(s, "[");
    push_signed(s, p[0].score as i64);
    push_str(s, ", ");
    push_signed(s, p[1].score as i64);
    push_str(s, ", ");
    push_signed(s, p[2].score as i64);
    push_str(s, ", ");
    push_signed(s, p[3].score as i64);
    push_str(s, "]");
    proof {
        reveal_strlit("[");
        reveal_strlit(", ");
        reveal_strlit("]");
    }
    assert(final(s)@ =~= old(s)@ + scores_text(*p));
}

impl<A: AiStrategy> Simulator<A> {
    pub fn new(bot_ai: A) -> (r: Self)
        ensures
            forall|i: int| 0 <= i < 4 ==> #[trigger] r.players[i].score == 25000 && r.players[i].seat == i
                && r.players[i].hand@.len() == 0 && r.players[i].melds@.len() == 0 && !r.players[i].riichi,
            r.wall@.len() == 0,
            r.wall_pos == 0,
            r.dead_wall_start == 0,
            r.dora_indicators@.len() == 0,
            r.round == 0,
            r.honba == 0,
            r.dealer == 0,
            r.round_wind == 27,
            r.bot_ai == bot_ai,
            r.log@.len() == 0,
            r.riichi_sticks == 0,
    {
        Simulator {
            players: [SimPlayer::new(0), SimPlayer::new(1), SimPlayer::new(2), SimPlayer::new(3)],
            wall: Vec::new(),
            wall_pos: 0,
            dead_wall_start: 0,
            dora_indicators: Vec::new(),
            round: 0,
            honba: 0,
            dealer: 0,
            round_wind: 27,
            bot_ai,
            log: Vec::new(),
            riichi_sticks: 0,
        }
    }

    /// Tsumo payments: a dealer winner gets the payment split evenly
    /// (rounded down) from the three others; else the dealer pays half and
    /// the other two a quarter each. The winner also takes the riichi sticks.
    fn apply_tsumo(&mut self, winner: usize)
        requires
            winner < 4,
            old(self).dealer < 4,
            0 <= old(self).riichi_sticks <= 4,
            scores_within(old(self).players, 1_100_000_000),
        ensures
            ({
                let payment = (if winner == old(self).dealer { 400int } else { 300int }) + old(self).honba * 100;
                let bonus = old(self).riichi_sticks * 1000;
                let dealer_win = winner == old(self).dealer;
                forall|i: int|
                    0 <= i < 4 ==> #[trigger] final(self).players[i].score == old(self).players[i].score + if i
                        == winner {
                        if dealer_win {
                            payment + bonus
                        } else {
                            payment * 2 / 4 + 2 * (payment / 4) + bonus
                        }
                    } else if dealer_win {
                        -(payment / 3)
                    } else if i == old(self).dealer {
                        -(payment * 2 / 4)
                    } else {
                        -(payment / 4)
                    }
            }),
            forall|i: int|
                0 <= i < 4 ==> #[trigger] final(self).players[i] == (SimPlayer {
                    score: final(self).players[i].score,
                    ..old(self).players[i]
                }),
            final(self).riichi_sticks == 0,
            final(self).log@.len() == old(self).log@.len() + 1,
            final(self).log@.drop_last() == old(self).log@,
            forall|i: int| 0 <= i < 4 ==> -30000 <= #[trigger] final(self).players[i].score - old(self).players[i].score <= 30000,
            ({
                let payment = (if winner == old(self).dealer { 400int } else { 300int }) + old(self).honba * 100;
                score_sum(final(self).players) == score_sum(old(self).players) + old(self).riichi_sticks * 1000 + (
                if winner == old(self).dealer {
                    payment % 3
                } else {
                    0
                })
            }),
            texts(final(self).log@) == texts(old(self).log@).push(
                "Tsumo! Winner P"@ + decimal(winner as nat) + " | scores: "@ + scores_text(final(self).players),
            ),
            *final(self) == (Simulator {
                players: final(self).players,
                riichi_sticks: 0,
                log: final(self).log,
                ..*old(self)
            }),
    {
        let base: i32 = if winner == self.dealer { 400 } else { 300 };
        let payment = base + self.honba as i32 * 100;
        let riichi_bonus = self.riichi_sticks * 1000;
        self.riichi_sticks = 0;
        if winner == self.dealer {
            // Dealer tsumo: each non-dealer pays equally
            let per = payment / 3;
            let mut i: usize = 0;
            while i < 4
                invariant
                    i <= 4,
                    winner < 4,
                    per == payment / 3,
                    0 <= payment <= 30000,
                    scores_within(old(self).players, 1_100_000_000),
                    forall|j: int| 0 <= j < 4 ==> #[trigger] self.players[j] == (SimPlayer {
                        score: self.players[j].score,
                        ..old(self).players[j]
                    }),
                    forall|j: int| 0 <= j < 4 ==> #[trigger] self.players[j].score == old(self).players[j].score - (if j < i && j != winner { per as int } else { 0 }),
                    *self == (Simulator { players: self.players, riichi_sticks: 0, ..*old(self) }),
                decreases 4 - i,
            {
                if i != winner {
                    self.players[i].score = self.players[i].score - per;
                }
                i = i + 1;
            }
            self.players[winner].score = self.players[winner].score + payment + riichi_bonus;
        } else {
            // Non-dealer tsumo: dealer pays double
            let dealer_pay = (payment * 2) / 4;
            let other_pay = payment / 4;
            let dealer = self.dealer;
            let mut i: usize = 0;
            while i < 4
                invariant
                    i <= 4,
                    winner < 4,
                    dealer < 4,
                    dealer == old(self).dealer,
                    dealer_pay == payment * 2 / 4,
                    other_pay == payment / 4,
                    0 <= payment <= 30000,
                    scores_within(old(self).players, 1_100_000_000),
                    forall|j: int| 0 <= j < 4 ==> #[trigger] self.players[j] == (SimPlayer {
                        score: self.players[j].score,
                        ..old(self).players[j]
                    }),
                    forall|j: int| 0 <= j < 4 ==> #[trigger] self.players[j].score == old(self).players[j].score - (if j < i && j != winner {
                        if j == dealer { dealer_pay as int } else { other_pay as int }
                    } else {
                        0
                    }),
                    *self == (Simulator { players: self.players, riichi_sticks: 0, ..*old(self) }),
                decreases 4 - i,
            {
                if i != winner {
                    let amt = if i == dealer { dealer_pay } else { other_pay };
                    self.players[i].score = self.players[i].score - amt;
                }
                i = i + 1;
            }
            self.players[winner].score = self.players[winner].score + dealer_pay + 2 * other_pay + riichi_bonus;
        }
        let mut line = String::new();
        push_str(&mut line, "Tsumo! Winner P");
        push_decimal(&mut line, winner as u64);
        push_str(&mut line, " | scores: ");
        push_scores(&mut line, &self.players);
        let ghost before = self.log@;
        self.log.push(line);
        assert(texts(self.log@) =~= texts(before).push(line@));
        assert(self.log@.drop_last() =~= before);
        proof {
            reveal_strlit("Tsumo! Winner P");
            reveal_strlit(" | scores: ");
        }
    }

    /// Ron payment: the discarder pays the winner, who also takes the riichi sticks.
    fn apply_ron(&mut self, winner: usize, discarder: usize)
        requires
            winner < 4,
            discarder < 4,
            winner != discarder,
            0 <= old(self).riichi_sticks <= 4,
            scores_within(old(self).players, 1_100_000_000),
        ensures
            ({
                let payment = (if winner == old(self).dealer { 500int } else { 350int }) + old(self).honba * 100;
                let bonus = old(self).riichi_sticks * 1000;
                &&& forall|i: int|
                    0 <= i < 4 ==> #[trigger] final(self).players[i].score == old(self).players[i].score + if i
                        == winner {
                        payment + bonus
                    } else if i == discarder {
                        -payment
                    } else {
                        0
                    }
                &&& texts(final(self).log@) == texts(old(self).log@).push(
                    "Ron! P"@ + decimal(winner as nat) + " wins from P"@ + decimal(discarder as nat) + " (+"@
                        + signed_decimal(payment) + ") | scores: "@ + scores_text(final(self).players),
                )
            }),
            forall|i: int|
                0 <= i < 4 ==> #[trigger] final(self).players[i] == (SimPlayer {
                    score: final(self).players[i].score,
                    ..old(self).players[i]
                }),
            final(self).riichi_sticks == 0,
            final(self).log@.len() == old(self).log@.len() + 1,
            final(self).log@.drop_last() == old(self).log@,
            forall|i: int| 0 <= i < 4 ==> -30000 <= #[trigger] final(self).players[i].score - old(self).players[i].score <= 30000,
            score_sum(final(self).players) == score_sum(old(self).players) + old(self).riichi_sticks * 1000,
            *final(self) == (Simulator {
                players: final(self).players,
                riichi_sticks: 0,
                log: final(self).log,
                ..*old(self)
            }),
    {
        let base: i32 = if winner == self.dealer { 500 } else { 350 };
        let payment = base + self.honba as i32 * 100;
        let riichi_bonus = self.riichi_sticks * 1000;
        self.riichi_sticks = 0;
        self.players[discarder].score = self.players[discarder].score - payment;
        self.players[winner].score = self.players[winner].score + payment + riichi_bonus;
        let mut line = String::new();
        push_str(&mut line, "Ron! P");
        push_decimal(&mut line, winner as u64);
        push_str(&mut line, " wins from P");
        push_decimal(&mut line, discarder as u64);
        push_str(&mut line, " (+");
        push_signed(&mut line, payment as i64);
        push_str(&mut line, ") | scores: ");
        push_scores(&mut line, &self.players);
        let ghost before = self.log@;
        self.log.push(line);
        assert(texts(self.log@) =~= texts(before).push(line@));
        assert(self.log@.drop_last() =~= before);
    }

    /// Ryuukyoku: noten payments (see `draw_change`), riichi sticks returned
    /// to their players, and the dealer keeps the deal (one more honba) when
    /// tenpai, else the deal passes on and the honba is reset.
    fn handle_ryuukyoku(&mut self)
        requires
            old(self).dealer < 4,
            old(self).honba < 255,
            hands_within(old(self).players, 127),
            scores_within(old(self).players, 1_100_000_000),
            old(self).riichi_sticks >= i32::MIN + 4,
        ensures
            forall|i: int|
                0 <= i < 4 ==> #[trigger] final(self).players[i] == (SimPlayer {
                    score: (old(self).players[i].score + draw_change(old(self).players, i)) as i32,
                    ..old(self).players[i]
                }),
            final(self).riichi_sticks == old(self).riichi_sticks - flag_count(riichi_flags(old(self).players), 4),
            score_sum(final(self).players) == score_sum(old(self).players) + 1000 * flag_count(
                riichi_flags(old(self).players),
                4,
            ) + (if flag_count(tenpai_flags(old(self).players), 4) == 3 {
                -1int
            } else {
                0int
            }),
            tenpai_flags(old(self).players)[old(self).dealer as int] ==> final(self).dealer == old(self).dealer
                && final(self).honba == old(self).honba + 1,
            !tenpai_flags(old(self).players)[old(self).dealer as int] ==> final(self).dealer == (old(self).dealer
                + 1) % 4 && final(self).honba == 0,
            final(self).log@.len() == old(self).log@.len() + 1,
            final(self).log@.drop_last() == old(self).log@,
            forall|i: int| 0 <= i < 4 ==> -30000 <= #[trigger] final(self).players[i].score - old(self).players[i].score <= 30000,
            texts(final(self).log@) == texts(old(self).log@).push(
                "Ryuukyoku. Tenpai: ["@ + joined(flagged(tenpai_flags(old(self).players), 4)) + "]"@,
            ),
            *final(self) == (Simulator {
                players: final(self).players,
                riichi_sticks: final(self).riichi_sticks,
                dealer: final(self).dealer,
                honba: final(self).honba,
                log: final(self).log,
                ..*old(self)
            }),
    {
        let ghost f = tenpai_flags(self.players);
        let mut tenpai: Vec<bool> = Vec::new();
        let mut i: usize = 0;
        while i < 4
            invariant
                i <= 4,
                *self == *old(self),
                f == tenpai_flags(self.players),
                hands_within(self.players, 127),
                tenpai@ == f.take(i as int),
            decreases 4 - i,
        {
            proof {
                lemma_small_hand_valid(self.players[i as int].hand@);
            }
            let t = calc_shanten(self.players[i].hand.as_slice()) <= 0;
            tenpai.push(t);
            assert(f.take(i + 1) =~= f.take(i as int).push(t));
            i = i + 1;
        }
        assert(f.take(4) =~= f);
        let mut count: usize = 0;
        let mut k: usize = 0;
        while k < 4
            invariant
                k <= 4,
                tenpai@ == f,
                f == tenpai_flags(old(self).players),
                count == flag_count(f, k as int),
                count <= k,
            decreases 4 - k,
        {
            if tenpai[k] {
                count = count + 1;
            }
            k = k + 1;
        }
        // The log line: the tenpai seats
        let mut line = String::new();
        push_str(&mut line, "Ryuukyoku. Tenpai: [");
        let ghost head = line@;
        let mut first = true;
        let mut q: usize = 0;
        while q < 4
            invariant
                q <= 4,
                tenpai@ == f,
                f == tenpai_flags(old(self).players),
                line@ == head + joined(flagged(f, q as int)),
                first == (flagged(f, q as int).len() == 0),
            decreases 4 - q,
        {
            if tenpai[q] {
                if !first {
                    push_str(&mut line, ", ");
                }
                push_decimal(&mut line, q as u64);
                proof {
                    reveal_strlit(", ");
                    let fl = flagged(f, q + 1);
                    assert(fl.drop_last() =~= flagged(f, q as int));
                }
                first = false;
            }
            q = q + 1;
        }
        push_str(&mut line, "]");
        proof {
            reveal_strlit("Ryuukyoku. Tenpai: [");
            reveal_strlit("]");
        }
        let ghost before_log = self.log@;
        self.log.push(line);
        assert(texts(self.log@) =~= texts(before_log).push(line@));
        assert(self.log@.drop_last() =~= before_log);
        let ghost logged = *self;

        if count == 0 || count == 4 {
            // No exchange
        } else {
            // Tenpai players split the noten payment (1000 per noten player)
            let per_noten: i32 = 1000;
            let per_tenpai: i32 = (per_noten * (4 - count) as i32) / count as i32;
            let mut j: usize = 0;
            while j < 4
                invariant
                    j <= 4,
                    tenpai@ == f,
                    f == tenpai_flags(old(self).players),
                    count == flag_count(f, 4),
                    1 <= count <= 3,
                    per_tenpai == 1000 * (4 - count as int) / (count as int),
                    per_noten == 1000,
                    scores_within(old(self).players, 1_100_000_000),
                    forall|m: int| 0 <= m < 4 ==> #[trigger] self.players[m] == (SimPlayer {
                        score: self.players[m].score,
                        ..old(self).players[m]
                    }),
                    forall|m: int| 0 <= m < 4 ==> #[trigger] self.players[m].score == old(self).players[m].score + (if m < j {
                        if f[m] { per_tenpai as int } else { -1000 }
                    } else {
                        0
                    }),
                    *self == (Simulator { players: self.players, ..logged }),
                decreases 4 - j,
            {
                if tenpai[j] {
                    self.players[j].score = self.players[j].score + per_tenpai;
                } else {
                    self.players[j].score = self.players[j].score - per_noten;
                }
                j = j + 1;
            }
        }
        let ghost paid = *self;
        // Return riichi sticks to the riichi players
        let mut j: usize = 0;
        while j < 4
            invariant
                j <= 4,
                forall|m: int| 0 <= m < 4 ==> #[trigger] self.players[m] == (SimPlayer {
                    score: self.players[m].score,
                    ..paid.players[m]
                }),
                forall|m: int| 0 <= m < 4 ==> #[trigger] self.players[m].score == paid.players[m].score + (if m < j && paid.players[m].riichi {
                    1000int
                } else {
                    0int
                }),
                scores_within(old(self).players, 1_100_000_000),
                forall|m: int| 0 <= m < 4 ==> #[trigger] paid.players[m].score - old(self).players[m].score <= 3000
                    && paid.players[m].score - old(self).players[m].score >= -1000,
                forall|m: int| 0 <= m < 4 ==> #[trigger] paid.players[m].riichi == old(self).players[m].riichi,
                self.riichi_sticks == paid.riichi_sticks - flag_count(riichi_flags(old(self).players), j as int),
                paid.riichi_sticks == old(self).riichi_sticks,
                0 <= flag_count(riichi_flags(old(self).players), j as int) <= j,
                old(self).riichi_sticks >= i32::MIN + 4,
                *self == (Simulator { players: self.players, riichi_sticks: self.riichi_sticks, ..paid }),
            decreases 4 - j,
        {
            if self.players[j].riichi {
                self.players[j].score = self.players[j].score + 1000;
                self.riichi_sticks = self.riichi_sticks - 1;
            }
            j = j + 1;
        }
        // Dealer tenpai: renchan
        let d = self.dealer;
        if tenpai[d] {
            self.honba = self.honba + 1;
        } else {
            self.dealer = (self.dealer + 1) % 4;
            self.honba = 0;
        }
        proof {
            assert forall|m: int| 0 <= m < 4 implies #[trigger] self.players[m] == (SimPlayer {
                score: (old(self).players[m].score + draw_change(old(self).players, m)) as i32,
                ..old(self).players[m]
            }) by {
                assert(self.players[m].score == old(self).players[m].score + draw_change(old(self).players, m));
            }
            assert forall|m: int| 0 <= m < 4 implies -30000 <= #[trigger] self.players[m].score - old(self).players[m].score <= 30000 by {
                assert(self.players[m].score == old(self).players[m].score + draw_change(old(self).players, m));
                lemma_draw_change_bounds(old(self).players, m);
            }
            lemma_draw_points(old(self).players);
        }
    }

    /// The winning context of player `pid` on `win_tile`.
    fn make_win_ctx(&self, pid: usize, win_tile: Tile136, tsumo: bool) -> (r: WinContext)
        requires
            pid < 4,
            self.dealer < 4,
            countable(win_tiles(self.players[pid as int], win_tile)),
        ensures
            ints(r.hand_tiles@) == tile_counts(win_tiles(self.players[pid as int], win_tile)),
            r.menzen == all_ankan(self.players[pid as int].melds@),
            r.riichi == self.players[pid as int].riichi,
            r.tsumo == tsumo,
            r.round_wind == self.round_wind,
            r.seat_wind == seat_wind_of(pid as int, self.dealer as int),
    {
        let p = &self.players[pid];
        let ghost all = win_tiles(*p, win_tile);
        let ghost mts = sim_meld_tiles(p.melds@);
        let mut counts: [i8; 34] = [0; 34];
        assert(ints(counts@) =~= tile_counts(Seq::<Tile136>::empty()));
        assert(all =~= p.hand@ + mts + seq![win_tile]);
        assert(all.take(p.hand@.len() as int) =~= Seq::<Tile136>::empty() + p.hand@);
        count_slice(&mut counts, p.hand.as_slice(), Ghost(Seq::<Tile136>::empty()), Ghost(all));
        assert(Seq::<Tile136>::empty() + p.hand@ =~= p.hand@);
        let mut j: usize = 0;
        while j < p.melds.len()
            invariant
                countable(all),
                all =~= p.hand@ + mts + seq![win_tile],
                mts == sim_meld_tiles(p.melds@),
                j <= p.melds@.len(),
                ints(counts@) == tile_counts(p.hand@ + sim_meld_tiles(p.melds@.take(j as int))),
            decreases p.melds@.len() - j,
        {
            proof {
                lemma_sim_meld_tiles_prefix(p.melds@, j + 1);
                assert(p.melds@.take(j + 1).drop_last() =~= p.melds@.take(j as int));
            }
            let ghost seen = p.hand@ + sim_meld_tiles(p.melds@.take(j as int));
            let ghost next = p.hand@ + sim_meld_tiles(p.melds@.take(j + 1));
            assert(next =~= seen + p.melds@[j as int].tiles@);
            assert(all.take(next.len() as int) =~= next);
            count_slice(&mut counts, p.melds[j].tiles.as_slice(), Ghost(seen), Ghost(all));
            j = j + 1;
        }
        assert(p.melds@.take(p.melds@.len() as int) =~= p.melds@);
        assert(all.take(all.len() - 1) =~= p.hand@ + mts);
        assert((p.hand@ + mts).push(win_tile) =~= all.take(all.len() as int));
        count_tile(&mut counts, win_tile, Ghost(p.hand@ + mts), Ghost(all));
        assert((p.hand@ + mts).push(win_tile) =~= all);
        let mut menzen = true;
        let mut k: usize = 0;
        while k < p.melds.len()
            invariant
                k <= p.melds@.len(),
                menzen == forall|q: int| 0 <= q < k ==> (#[trigger] p.melds@[q]).mtype == MeldType::Ankan,
            decreases p.melds@.len() - k,
        {
            if p.melds[k].mtype != MeldType::Ankan {
                menzen = false;
            }
            k = k + 1;
        }
        let rel = (4 + pid as i8 - self.dealer as i8) % 4;
        let seat_wind: Tile34 = match rel {
            0 => 27,
            1 => 28,
            2 => 29,
            _ => 30,
        };
        WinContext { hand_tiles: counts, menzen, riichi: p.riichi, tsumo, round_wind: self.round_wind, seat_wind }
    }

    /// The player who wins on the discard `tile` of `discarder`: see `ron_winner_from`.
    fn check_ron(&self, discarder: usize, tile: Tile136) -> (r: Option<usize>)
        requires
            discarder < 4,
            self.dealer < 4,
            tile < 136,
            hands_within(self.players, 126),
            no_melds(self.players),
        ensures
            r == ron_winner_from(*self, discarder as int, tile, 0),
    {
        let mut pid: usize = 0;
        while pid < 4
            invariant
                pid <= 4,
                discarder < 4,
                self.dealer < 4,
                tile < 136,
                hands_within(self.players, 126),
                no_melds(self.players),
                ron_winner_from(*self, discarder as int, tile, 0) == ron_winner_from(
                    *self,
                    discarder as int,
                    tile,
                    pid as int,
                ),
            decreases 4 - pid,
        {
            if pid != discarder {
                let mut hand = copy_tiles(&self.players[pid].hand);
                hand.push(tile);
                proof {
                    let h = self.players[pid as int].hand@;
                    assert forall|k: int| 0 <= k < hand@.len() implies #[trigger] hand@[k] < 136 by {
                        if k < h.len() {
                            assert(hand@[k] == h[k]);
                        }
                    }
                    lemma_small_hand_valid(hand@);
                }
                if calc_shanten(hand.as_slice()) < 0 {
                    if pid == 0 {
                        proof {
                            let p = self.players[0];
                            assert(win_tiles(p, tile) =~= hand@);
                        }
                        let ctx = self.make_win_ctx(0, tile, false);
                        if has_yaku(&ctx).can_win || self.players[0].riichi {
                            return Some(0);
                        }
                    } else if self.players[pid].riichi {
                        return Some(pid);
                    }
                }
            }
            pid = pid + 1;
        }
        None
    }

    /// The game as the bot's strategy sees it: a fresh state holding the
    /// bot's hand and riichi, the dealer, the round wind, the dora
    /// indicators, and each opponent's discards and riichi.
    fn bot_state(&self) -> (gs: GameState)
        ensures
            bot_view(*self, gs),
    {
        let mut gs = GameState::new(0, 0);
        let ghost fresh = gs;
        gs.players[0].hand_136 = copy_tiles(&self.players[0].hand);
        gs.bot_riichi = self.players[0].riichi;
        gs.players[0].is_riichi = self.players[0].riichi;
        gs.dealer_seat = self.dealer as u8;
        gs.round_wind = self.round_wind;
        gs.dora_indicators = copy_tiles(&self.dora_indicators);
        let ghost set = gs;
        let mut i: usize = 1;
        while i < 4
            invariant
                1 <= i <= 4,
                gs == (GameState { players: gs.players, ..set }),
                gs.players[0] == set.players[0],
                forall|j: int| 1 <= j < i ==> #[trigger] gs.players[j] == (PlayerState {
                    discards: gs.players[j].discards,
                    is_riichi: gs.players[j].is_riichi,
                    ..fresh.players[j]
                }) && gs.players[j].discards@ == self.players[j].discards@
                    && gs.players[j].is_riichi == self.players[j].riichi,
                forall|j: int| i <= j < 4 ==> #[trigger] gs.players[j] == fresh.players[j],
            decreases 4 - i,
        {
            gs.players[i].discards = copy_tiles(&self.players[i].discards);
            gs.players[i].is_riichi = self.players[i].riichi;
            i = i + 1;
        }
        gs
    }

    /// Start a round: a new shuffled wall, empty hands, discards and melds,
    /// no riichi; thirteen tiles dealt to each player from the dealer on
    /// (each hand then sorted); the first dora indicator shown and logged.
    fn start_round(&mut self, wall: Vec<Tile136>)
        requires
            wall@.len() == 136,
            wall@.to_multiset() == full_set().to_multiset(),
            old(self).dealer < 4,
            old(self).honba < 255,
            old(self).riichi_sticks == 0,
            scores_within(old(self).players, 1_000_000_000),
        ensures
            in_round(*final(self), old(self).players),
            dealt(*old(self), wall@, *final(self)),
            final(self).wall@ == wall@,
            final(self).wall_pos == 52,
            hands_within(final(self).players, 13),
            forall|i: int| 0 <= i < 4 ==> (#[trigger] final(self).players[i]).hand@.len() == 13,
            pile_size(final(self).players) == 0,
            forall|i: int| 0 <= i < 4 ==> !(#[trigger] final(self).players[i]).riichi,
            forall|i: int| 0 <= i < 4 ==> (#[trigger] final(self).players[i]).score == old(self).players[i].score,
            final(self).riichi_sticks == 0,
            final(self).dealer == old(self).dealer,
            final(self).honba == old(self).honba,
            final(self).round == old(self).round,
            final(self).round_wind == old(self).round_wind,
            final(self).bot_ai == old(self).bot_ai,
            extends(final(self).log@, old(self).log@),
    {
        self.wall = wall;
        self.dead_wall_start = 122;
        proof {
            lemma_perm_tiles(self.wall@, full_set());
        }
        self.wall_pos = 0;
        self.dora_indicators = Vec::new();
        let mut i: usize = 0;
        while i < 4
            invariant
                i <= 4,
                self.wall@.len() == 136,
                self.wall@ == wall@,
                forall|k: int| 0 <= k < 136 ==> #[trigger] self.wall@[k] < 136,
                self.dead_wall_start == 122,
                self.wall_pos == 0,
                self.dora_indicators@.len() == 0,
                forall|j: int| 0 <= j < i ==> {
                    let p = #[trigger] self.players[j];
                    &&& p.hand@.len() == 0
                    &&& p.discards@.len() == 0
                    &&& p.melds@.len() == 0
                    &&& !p.riichi
                },
                forall|j: int| 0 <= j < 4 ==> (#[trigger] self.players[j]).score == old(self).players[j].score
                    && self.players[j].seat == old(self).players[j].seat,
                *self == (Simulator { players: self.players, wall: self.wall, wall_pos: 0, dead_wall_start: 122, dora_indicators: self.dora_indicators, ..*old(self) }),
            decreases 4 - i,
        {
            self.players[i].hand = Vec::new();
            self.players[i].discards = Vec::new();
            self.players[i].melds = Vec::new();
            self.players[i].riichi = false;
            i = i + 1;
        }
        // Deal
        let mut i: usize = 0;
        while i < 4
            invariant
                i <= 4,
                self.wall@.len() == 136,
                self.wall@ == wall@,
                forall|k: int| 0 <= k < 136 ==> #[trigger] self.wall@[k] < 136,
                self.dead_wall_start == 122,
                self.wall_pos == 13 * i,
                old(self).dealer < 4,
                hands_within(self.players, 13),
                forall|j: int| i <= j < 4 ==> (#[trigger] self.players[((old(self).dealer + j) % 4) as int]).hand@.len() == 0,
                forall|j: int| 0 <= j < i ==> (#[trigger] self.players[((old(self).dealer + j) % 4) as int]).hand@.len() == 13,
                forall|x: Tile136| #[trigger] held(self.players, x) == cnt(self.wall@.take(self.wall_pos as int), x),
                forall|j: int| 0 <= j < 4 ==> {
                    let p = #[trigger] self.players[j];
                    &&& p.discards@.len() == 0
                    &&& p.melds@.len() == 0
                    &&& !p.riichi
                    &&& p.score == old(self).players[j].score
                    &&& p.seat == old(self).players[j].seat
                },
                forall|j: int|
                    0 <= j < i ==> {
                        let p = #[trigger] self.players[(old(self).dealer + j) % 4];
                        &&& sorted(p.hand@)
                        &&& p.hand@.to_multiset() == self.wall@.subrange(13 * j, 13 * j + 13).to_multiset()
                    },
                self.dora_indicators@.len() == 0,
                *self == (Simulator { players: self.players, wall_pos: self.wall_pos, dora_indicators: self.dora_indicators, ..*self }),
                self.dealer == old(self).dealer,
                self.honba == old(self).honba,
                self.round == old(self).round,
                self.round_wind == old(self).round_wind,
                self.bot_ai == old(self).bot_ai,
                self.riichi_sticks == old(self).riichi_sticks,
                self.log@ == old(self).log@,
            decreases 4 - i,
        {
            let pid = (self.dealer + i) % 4;
            let mut hand: Vec<Tile136> = Vec::new();
            let ghost before = *self;
            let mut c: usize = 0;
            while c < 13
                invariant
                    c <= 13,
                    self.wall@.len() == 136,
                    forall|k: int| 0 <= k < 136 ==> #[trigger] self.wall@[k] < 136,
                    self.wall_pos == 13 * i + c,
                    i < 4,
                    hand@.len() == c,
                    hand@ == self.wall@.subrange(13 * i, 13 * i + c),
                    forall|k: int| 0 <= k < hand@.len() ==> #[trigger] hand@[k] < 136,
                    *self == (Simulator { wall_pos: self.wall_pos, ..before }),
                decreases 13 - c,
            {
                let t = self.draw_wall();
                hand.push(t);
                assert(hand@ =~= self.wall@.subrange(13 * i, 13 * i + c + 1));
                c = c + 1;
            }
            let sorted_hand = sort_tiles(hand.as_slice());
            proof {
                lemma_perm_tiles(sorted_hand@, hand@);
            }
            let ghost pre = self.players;
            assert(hand@ =~= self.wall@.subrange(13 * i, 13 * i + 13));
            self.players[pid].hand = sorted_hand;
            proof {
                assert(pre[pid as int].hand@.len() == 0);
                assert forall|x: Tile136| #[trigger] held(self.players, x) == cnt(
                    self.wall@.take(self.wall_pos as int),
                    x,
                ) by {
                    lemma_cnt_sorted(sorted_hand@, hand@, x);
                    assert(self.wall@.take(self.wall_pos as int) =~= self.wall@.take(13 * i) + hand@);
                    lemma_cnt_append(self.wall@.take(13 * i), hand@, x);
                    assert(cnt(pre[pid as int].hand@, x) == 0);
                    assert(held(pre, x) == cnt(self.wall@.take(13 * i), x));
                    assert(self.players[0].hand@ == pre[0].hand@ || pid == 0);
                    assert(self.players[1].hand@ == pre[1].hand@ || pid == 1);
                    assert(self.players[2].hand@ == pre[2].hand@ || pid == 2);
                    assert(self.players[3].hand@ == pre[3].hand@ || pid == 3);
                }
            }
            i = i + 1;
        }
        proof {
            let d = old(self).dealer as int;
            assert forall|q: int| 0 <= q < 4 implies (#[trigger] self.players[q]).hand@.len() == 13 by {
                let j = (q - d + 4) % 4;
                assert(0 <= j < 4);
                assert((d + j) % 4 == q);
                assert(self.players[((d + j) % 4) as int].hand@.len() == 13);
            }
            assert forall|x: Tile136|
                #![trigger held(self.players, x)]
                held(self.players, x) + cnt(self.wall@.skip(52), x) + thrown(self.players, x) == (if x < 136 {
                    1int
                } else {
                    0int
                }) by {
                assert(self.wall@ =~= self.wall@.take(52) + self.wall@.skip(52));
                lemma_cnt_append(self.wall@.take(52), self.wall@.skip(52), x);
                lemma_cnt_wall(self.wall@, x);
                assert(self.players[0].discards@.len() == 0);
                assert(self.players[1].discards@.len() == 0);
                assert(self.players[2].discards@.len() == 0);
                assert(self.players[3].discards@.len() == 0);
                assert(thrown(self.players, x) == 0);
            }
        }
        // Initial dora
        let d = self.wall[self.dead_wall_start];
        self.dora_indicators.push(d);
        let mut line = String::new();
        push_str(&mut line, "Dora: ");
        let name = tile136_display(d);
        push_str(&mut line, name.as_str());
        let ghost before = self.log@;
        self.log.push(line);
        assert(self.log@.take(before.len() as int) =~= before);
        assert(flag_count(riichi_flags(self.players), 4) == 0) by {
            reveal_with_fuel(flag_count, 5);
        }
        assert(self.dora_indicators@ =~= seq![wall@[122]]);
    }

    /// Tsumo check after player `turn` drew `tile`: a complete hand wins
    /// when the bot has a yaku or is in riichi, or when an opponent is in
    /// riichi; the win is logged and paid. Returns whether the round ended.
    #[verifier::rlimit(60)]
    fn try_tsumo(&mut self, turn: usize, tile: Tile136, Ghost(base): Ghost<[SimPlayer; 4]>) -> (ended: bool)
        requires
            turn < 4,
            tile < 136,
            in_round(*old(self), base),
            hands_within(old(self).players, 126),
            forall|i: int| 0 <= i < 4 && i != turn ==> (#[trigger] old(self).players[i]).hand@.len() == 13,
            old(self).players[turn as int].hand@.len() == 14,
        ensures
            ended ==> round_settled(base, final(self).players, final(self).riichi_sticks),
            ended ==> round_result(
                RoundEnd::Tsumo { winner: turn },
                base,
                old(self).players,
                final(self).players,
                old(self).dealer as int,
                old(self).honba as int,
                final(self).dealer as int,
                final(self).honba as int,
            ),
            ended == tsumo_claim(*old(self), turn as int, tile),
            !ended ==> *final(self) == *old(self),
            final(self).wall == old(self).wall,
            final(self).wall_pos == old(self).wall_pos,
            final(self).dealer == old(self).dealer,
            final(self).honba == old(self).honba,
            final(self).round == old(self).round,
            final(self).round_wind == old(self).round_wind,
            final(self).bot_ai == old(self).bot_ai,
            extends(final(self).log@, old(self).log@),
    {
        let current_hand = copy_tiles(&self.players[turn].hand);
        proof {
            lemma_small_hand_valid(current_hand@);
            assert(self.log@.take(self.log@.len() as int) =~= self.log@);
        }
        if calc_shanten(current_hand.as_slice()) >= 0 {
            return false;
        }
        let is_riichi = self.players[turn].riichi;
        let mut line = String::new();
        if turn == 0 {
            proof {
                let w = win_tiles(self.players[0], tile);
                assert(w =~= self.players[0].hand@.push(tile));
                assert forall|k: int| 0 <= k < w.len() implies #[trigger] w[k] < 136 by {
                    if k < w.len() - 1 {
                        assert(w[k] == self.players[0].hand@[k]);
                    }
                }
                lemma_small_countable(w);
            }
            let ctx = self.make_win_ctx(0, tile, true);
            if !(has_yaku(&ctx).can_win || is_riichi) {
                return false;
            }
            push_str(&mut line, "🎉 BOT TSUMO! ");
            let shown = tiles136_display(current_hand.as_slice());
            push_str(&mut line, shown.as_str());
        } else {
            if !is_riichi {
                return false;
            }
            push_str(&mut line, "P");
            push_decimal(&mut line, turn as u64);
            push_str(&mut line, " TSUMO!");
        }
        let ghost before = self.log@;
        self.log.push(line);
        proof {
            lemma_extends_push(before, line);
        }
        let ghost mid = *self;
        proof {
            lemma_riichi_sum(base, self.players);
        }
        self.apply_tsumo(turn);
        proof {
            assert(self.log@ =~= mid.log@.push(self.log@.last()));
            lemma_extends_push(mid.log@, self.log@.last());
            lemma_extends_trans(self.log@, mid.log@, old(self).log@);
            let payment = (if turn == mid.dealer { 400int } else { 300int }) + mid.honba * 100;
            lemma_round_close(base, mid.players, mid.riichi_sticks as int, self.players, if turn == mid.dealer {
                payment % 3
            } else {
                0
            });
            assert(current_hand@ == old(self).players[turn as int].hand@);
            assert forall|i: int| 0 <= i < 4 implies #[trigger] self.players[i] == (SimPlayer {
                score: (mid.players[i].score + score_change(
                    RoundEnd::Tsumo { winner: turn },
                    mid.players,
                    mid.dealer as int,
                    mid.honba as int,
                    i,
                )) as i32,
                ..mid.players[i]
            }) by {}
        }
        true
    }

    /// Riichi step of player `turn` with `current_hand`: a closed tenpai
    /// hand not yet in riichi declares it (the bot only when its strategy
    /// agrees), paying a stick into the pot.
    fn riichi_step(&mut self, turn: usize, current_hand: &Vec<Tile136>, Ghost(base): Ghost<[SimPlayer; 4]>)
        requires
            turn < 4,
            in_round(*old(self), base),
            current_hand@ == old(self).players[turn as int].hand@,
            hands_within(old(self).players, 126),
        ensures
            riichi_stepped(*old(self), turn as int, *final(self)),
            in_round(*final(self), base),
            forall|i: int| 0 <= i < 4 ==> (#[trigger] final(self).players[i]).hand == old(self).players[i].hand
                && final(self).players[i].discards == old(self).players[i].discards,
            *final(self) == (Simulator {
                players: final(self).players,
                riichi_sticks: final(self).riichi_sticks,
                log: final(self).log,
                ..*old(self)
            }),
            extends(final(self).log@, old(self).log@),
    {
        proof {
            lemma_small_hand_valid(current_hand@);
            lemma_riichi_sum(base, self.players);
        }
        let is_riichi = self.players[turn].riichi;
        let do_riichi = if !is_riichi {
            let menzen = all_ankan_melds(&self.players[turn].melds);
            menzen && calc_shanten(current_hand.as_slice()) <= 0
        } else {
            false
        };
        if !do_riichi {
            assert(self.log@.take(self.log@.len() as int) =~= self.log@);
            return;
        }
        let mut line = String::new();
        if turn == 0 {
            let gs = self.bot_state();
            let answer = self.bot_ai.should_riichi(&gs);
            proof {
                assert(bot_says_riichi(*self, answer.0));
            }
            if !answer.0 {
                assert(self.log@.take(self.log@.len() as int) =~= self.log@);
                return;
            }
            push_str(&mut line, "BOT declares RIICHI!");
        } else {
            push_str(&mut line, "P");
            push_decimal(&mut line, turn as u64);
            push_str(&mut line, " declares RIICHI!");
        }
        let ghost pre = self.players;
        self.players[turn].riichi = true;
        self.riichi_sticks = self.riichi_sticks + 1;
        self.players[turn].score = self.players[turn].score - 1000;
        proof {
            lemma_riichi_declared(pre, self.players, turn as int);
            lemma_same_tiles_accounted(pre, self.players, self.wall@, self.wall_pos as int);
        }
        let ghost before = self.log@;
        self.log.push(line);
        proof {
            lemma_extends_push(before, line);
        }
    }

    /// Discard step of player `turn`: the bot's strategy chooses in its view
    /// of the game (a tile it does not hold is replaced by its last tile), an
    /// opponent plays `SimpleAi` on `current_hand`; the tile leaves the hand
    /// and joins the discards; the bot's discard is logged. The discard may be
    /// won by ron (see `ron_winner_from`), which ends the round; the winner is
    /// returned.
    #[verifier::rlimit(60)]
    fn discard_step(
        &mut self,
        turn: usize,
        current_hand: &Vec<Tile136>,
        Ghost(base): Ghost<[SimPlayer; 4]>,
        Ghost(limit): Ghost<int>,
    ) -> (won: Option<usize>)
        requires
            turn < 4,
            in_round(*old(self), base),
            current_hand@.len() > 0,
            current_hand@ == old(self).players[turn as int].hand@,
            forall|i: int| 0 <= i < 4 && i != turn ==> (#[trigger] old(self).players[i]).hand@.len() == 13,
            old(self).players[turn as int].hand@.len() == 14,
            limit <= 125,
            hands_within(old(self).players, limit),
        ensures
            exists|s3: Simulator<A>|
                {
                    &&& #[trigger] discarded(*old(self), turn as int, s3)
                    &&& won == ron_winner_from(s3, turn as int, s3.players[turn as int].discards@.last(), 0)
                    &&& won is None ==> *final(self) == s3
                    &&& won matches Some(w) ==> round_result(
                        RoundEnd::Ron { winner: w, discarder: turn },
                        base,
                        s3.players,
                        final(self).players,
                        old(self).dealer as int,
                        old(self).honba as int,
                        final(self).dealer as int,
                        final(self).honba as int,
                    )
                },
            won is Some ==> round_settled(base, final(self).players, final(self).riichi_sticks),
            won matches Some(w) ==> exists|mid: [SimPlayer; 4]|
                #[trigger] round_result(
                    RoundEnd::Ron { winner: w, discarder: turn },
                    base,
                    mid,
                    final(self).players,
                    old(self).dealer as int,
                    old(self).honba as int,
                    final(self).dealer as int,
                    final(self).honba as int,
                ),
            final(self).wall == old(self).wall,
            final(self).wall_pos == old(self).wall_pos,
            tiles_accounted(final(self).players, final(self).wall@, final(self).wall_pos as int),
            forall|i: int| 0 <= i < 4 && i != turn ==> #[trigger] final(self).players[i].hand@ == old(self).players[i].hand@,
            forall|i: int| 0 <= i < 4 && i != turn ==> #[trigger] final(self).players[i].discards@ == old(self).players[i].discards@,
            final(self).players[turn as int].hand@.len() + 1 == old(self).players[turn as int].hand@.len(),
            final(self).players[turn as int].discards@.len() == old(self).players[turn as int].discards@.len() + 1,
            won is None ==> in_round(*final(self), base) && hands_within(final(self).players, limit) && *final(self) == (
            Simulator { players: final(self).players, log: final(self).log, ..*old(self) }),
            final(self).dealer == old(self).dealer,
            final(self).honba == old(self).honba,
            final(self).round == old(self).round,
            final(self).round_wind == old(self).round_wind,
            final(self).bot_ai == old(self).bot_ai,
            extends(final(self).log@, old(self).log@),
    {
        proof {
            lemma_small_hand_valid(current_hand@);
        }
        let ghost pre = self.players;
        let discard = if turn == 0 {
            let gs = self.bot_state();
            let chosen = self.bot_ai.choose_discard(&gs);
            // The strategy names a tile of the hand; should it not, the drawn
            // (last) tile goes instead.
            let n = self.players[0].hand.len();
            let d = if holds(&self.players[0].hand, chosen) {
                chosen
            } else {
                self.players[0].hand[n - 1]
            };
            proof {
                lemma_cnt_index(self.players[0].hand@, n - 1);
                assert(cnt(pre[0].hand@, d) >= 1);
            }
            let kept = remove_all(&self.players[0].hand, d);
            proof {
                lemma_without_tile(self.players[0].hand@, d);
            }
            self.players[0].hand = kept;
            d
        } else {
            let ai = SimpleAi::new();
            let d = ai.choose_discard(current_hand.as_slice(), self.players[turn].riichi);
            proof {
                lemma_best_discard_index(current_hand@, current_hand@.len() as int);
                lemma_without_tile(self.players[turn as int].hand@, d);
            }
            let kept = remove_all(&self.players[turn].hand, d);
            self.players[turn].hand = kept;
            d
        };
        self.players[turn].discards.push(discard);
        proof {
            if turn != 0 {
                assert(current_hand@ == pre[turn as int].hand@);
                lemma_best_discard_index(current_hand@, current_hand@.len() as int);
                if self.players[turn as int].riichi {
                    lemma_cnt_index(current_hand@, current_hand@.len() - 1);
                } else {
                    lemma_cnt_index(current_hand@, best_discard_index(current_hand@, current_hand@.len() as int));
                }
            }
            lemma_discard_accounted(pre, self.players, self.wall@, self.wall_pos as int, turn as int, discard);
            lemma_cnt_without_len(pre[turn as int].hand@, discard);
        }
        let ghost before = self.log@;
        if turn == 0 {
            let mut line = String::new();
            push_str(&mut line, "BOT");
            if self.players[0].riichi {
                push_str(&mut line, "(R)");
            }
            push_str(&mut line, " discards ");
            let name = tile136_display(discard);
            push_str(&mut line, name.as_str());
            push_str(&mut line, " | hand: ");
            let shown = tiles136_display(self.players[0].hand.as_slice());
            push_str(&mut line, shown.as_str());
            push_str(&mut line, " | shanten: ");
            proof {
                lemma_small_hand_valid(self.players[0].hand@);
            }
            let sh = calc_shanten(self.players[0].hand.as_slice());
            push_signed(&mut line, sh as i64);
            self.log.push(line);
            proof {
                lemma_extends_push(before, line);
            }
        } else {
            assert(self.log@.take(before.len() as int) =~= before);
        }
        let ghost s3 = *self;
        proof {
            assert(discarded(*old(self), turn as int, s3));
        }
        if discard < 136 {
            let winner = self.check_ron(turn, discard);
            proof {
                lemma_ron_winner(*self, turn as int, discard, 0);
            }
            if let Some(w) = winner {
                let ghost mid = *self;
                proof {
                    lemma_riichi_sum(base, self.players);
                }
                self.apply_ron(w, turn);
                proof {
                    assert(self.log@ =~= mid.log@.push(self.log@.last()));
                    lemma_extends_push(mid.log@, self.log@.last());
                    lemma_extends_trans(self.log@, mid.log@, old(self).log@);
                    lemma_round_close(base, mid.players, mid.riichi_sticks as int, self.players, 0);
                    lemma_ron_result(base, mid, self.players, w, turn, discard);
                    lemma_same_tiles_accounted(mid.players, self.players, self.wall@, self.wall_pos as int);
                    assert(round_result(
                        RoundEnd::Ron { winner: w, discarder: turn },
                        base,
                        mid.players,
                        self.players,
                        old(self).dealer as int,
                        old(self).honba as int,
                        self.dealer as int,
                        self.honba as int,
                    ));
                }
                return Some(w);
            }
        }
        None
    }

    /// One round on the shuffled `wall`: `start_round`, then turns from the
    /// dealer on, each drawing one tile (tsumo check, riichi step, discard
    /// step), until a win ends the round or the live wall runs out (14 tiles
    /// before the dead wall), which is an exhaustive draw. Returns how it
    /// ended: the round goes as `played_by_rules` says from the dealt state
    /// (`dealt`), and `round_result` says what that means for the players.
    /// Every tile of the wall stays in exactly one place (`tiles_accounted`).
    #[verifier::spinoff_prover]
    #[verifier::rlimit(100)]
    fn play_round(&mut self, wall: Vec<Tile136>) -> (end: RoundEnd)
        requires
            wall@.len() == 136,
            wall@.to_multiset() == full_set().to_multiset(),
            old(self).dealer < 4,
            old(self).honba < 255,
            old(self).riichi_sticks == 0,
            scores_within(old(self).players, 1_000_000_000),
        ensures
            exists|s0: Simulator<A>, mid: [SimPlayer; 4]|
                #![trigger dealt(*old(self), wall@, s0), played_by_rules(s0, end, mid)]
                {
                    &&& dealt(*old(self), wall@, s0)
                    &&& played_by_rules(s0, end, mid)
                    &&& round_result(
                        end,
                        old(self).players,
                        mid,
                        final(self).players,
                        old(self).dealer as int,
                        old(self).honba as int,
                        final(self).dealer as int,
                        final(self).honba as int,
                    )
                },
            round_settled(old(self).players, final(self).players, final(self).riichi_sticks),
            final(self).wall@ == wall@,
            52 <= final(self).wall_pos <= 108,
            tiles_accounted(final(self).players, wall@, final(self).wall_pos as int),

            end == RoundEnd::Draw ==> final(self).wall_pos == 108,
            final(self).dealer < 4,
            final(self).honba <= old(self).honba + 1,
            final(self).round == old(self).round,
            final(self).round_wind == old(self).round_wind,
            final(self).bot_ai == old(self).bot_ai,
            extends(final(self).log@, old(self).log@),
    {
        let ghost base = self.players;
        self.start_round(wall);
        let ghost s0 = *self;
        let ghost mut tr: Seq<Simulator<A>> = seq![s0];
        let mut turn = self.dealer;
        let mut k: usize = 0;
        while k < 300
            invariant
                dealt(*old(self), wall@, s0),
                tr.len() == k + 1,
                tr[0] == s0,
                tr.last() == *self,
                forall|j: int| 0 <= j < k ==> #[trigger] turn_played(tr[j], (s0.dealer + j) % 4, tr[j + 1]),
                turn as int == (s0.dealer + k) % 4,
                s0.dealer == old(self).dealer,
                in_round(*self, base),
                base == old(self).players,
                self.wall@ == wall@,
                forall|i: int| 0 <= i < 4 ==> (#[trigger] self.players[i]).hand@.len() == 13,
                pile_size(self.players) == self.wall_pos - 52,
                self.wall_pos == 52 + k,
                self.wall_pos <= 108,
                hands_within(self.players, self.wall_pos - 39),
                turn < 4,
                self.dealer == old(self).dealer,
                self.honba == old(self).honba,
                self.round == old(self).round,
                self.round_wind == old(self).round_wind,
                self.bot_ai == old(self).bot_ai,
                extends(self.log@, old(self).log@),
            decreases 300 - k,
        {
            if self.wall_pos >= self.dead_wall_start - 14 {
                let ghost mid = *self;
                proof {
                    assert(round_ended(tr.last(), (s0.dealer + tr.len() - 1) % 4, RoundEnd::Draw, mid.players));
                    assert(played_by_rules(s0, RoundEnd::Draw, mid.players));
                }
                proof {
                    lemma_riichi_sum(base, self.players);
                }
                self.handle_ryuukyoku();
                proof {
                    assert(self.log@ =~= mid.log@.push(self.log@.last()));
                    lemma_extends_push(mid.log@, self.log@.last());
                    lemma_extends_trans(self.log@, mid.log@, old(self).log@);
                    let rounding = if flag_count(tenpai_flags(mid.players), 4) == 3 { -1int } else { 0int };
                    lemma_round_close(base, mid.players, mid.riichi_sticks as int, self.players, rounding);
                    lemma_riichi_sum(base, mid.players);
                    lemma_same_tiles_accounted(mid.players, self.players, self.wall@, self.wall_pos as int);
                    assert(round_result(
                        RoundEnd::Draw,
                        base,
                        mid.players,
                        self.players,
                        old(self).dealer as int,
                        old(self).honba as int,
                        self.dealer as int,
                        self.honba as int,
                    ));
                }
                return RoundEnd::Draw;
            }
            let ghost before_draw = *self;
            let tile = self.draw_wall();
            self.players[turn].hand.push(tile);
            let ghost s1 = *self;
            proof {
                assert(drew(before_draw, turn as int, s1));
                lemma_draw_accounted(
                    before_draw.players,
                    self.players,
                    self.wall@,
                    before_draw.wall_pos as int,
                    turn as int,
                );
            }
            let ghost limit = self.wall_pos - 39;
            let ghost log0 = self.log@;
            let ghost before_tsumo = self.players;
            if self.try_tsumo(turn, tile, Ghost(base)) {
                proof {
                    lemma_extends_trans(self.log@, log0, old(self).log@);
                    lemma_same_tiles_accounted(before_tsumo, self.players, self.wall@, self.wall_pos as int);
                    assert(round_result(
                        RoundEnd::Tsumo { winner: turn },
                        base,
                        before_tsumo,
                        self.players,
                        old(self).dealer as int,
                        old(self).honba as int,
                        self.dealer as int,
                        self.honba as int,
                    ));
                }
                proof {
                    assert(round_ended(
                        tr.last(),
                        (s0.dealer + tr.len() - 1) % 4,
                        RoundEnd::Tsumo { winner: turn },
                        before_tsumo,
                    ));
                    assert(played_by_rules(s0, RoundEnd::Tsumo { winner: turn }, before_tsumo));
                }
                return RoundEnd::Tsumo { winner: turn };
            }
            let current_hand = copy_tiles(&self.players[turn].hand);
            self.riichi_step(turn, &current_hand, Ghost(base));
            let ghost s2 = *self;
            let ghost log1 = self.log@;
            let won = self.discard_step(turn, &current_hand, Ghost(base), Ghost(limit));
            let ghost s3 = choose|s3: Simulator<A>|
                {
                    &&& #[trigger] discarded(s2, turn as int, s3)
                    &&& won == ron_winner_from(s3, turn as int, s3.players[turn as int].discards@.last(), 0)
                    &&& won is None ==> *self == s3
                    &&& won matches Some(w) ==> round_result(
                        RoundEnd::Ron { winner: w, discarder: turn },
                        base,
                        s3.players,
                        self.players,
                        s2.dealer as int,
                        s2.honba as int,
                        self.dealer as int,
                        self.honba as int,
                    )
                };
            proof {
                lemma_extends_trans(log1, log0, old(self).log@);
                lemma_extends_trans(self.log@, log1, old(self).log@);
            }
            if let Some(w) = won {
                proof {
                    let e = RoundEnd::Ron { winner: w, discarder: turn };
                    assert(round_ended(tr.last(), (s0.dealer + tr.len() - 1) % 4, e, s3.players));
                    assert(played_by_rules(s0, e, s3.players));
                }
                return RoundEnd::Ron { winner: w, discarder: turn };
            }
            proof {
                assert(turn_played(before_draw, turn as int, s3));
                lemma_trace_push(tr, s0, s3);
                tr = tr.push(s3);
            }
            turn = (turn + 1) % 4;
            k = k + 1;
        }
        RoundEnd::Draw
    }

    /// One round on a newly shuffled wall: see `play_round`.
    fn run_round(&mut self)
        requires
            old(self).dealer < 4,
            old(self).honba < 255,
            old(self).riichi_sticks == 0,
            scores_within(old(self).players, 1_000_000_000),
        ensures
            round_played(*old(self), *final(self)),
            round_settled(old(self).players, final(self).players, final(self).riichi_sticks),
            final(self).wall@.to_multiset() == full_set().to_multiset(),
            52 <= final(self).wall_pos <= 108,
            tiles_accounted(final(self).players, final(self).wall@, final(self).wall_pos as int),
            final(self).dealer < 4,
            final(self).honba <= old(self).honba + 1,
            final(self).round == old(self).round,
            final(self).round_wind == old(self).round_wind,
            final(self).bot_ai == old(self).bot_ai,
            extends(final(self).log@, old(self).log@),
    {
        let wall = Self::build_wall();
        let end = self.play_round(wall);
    }

    /// Play a hanchan: scores back to 25000, the first dealer and an empty
    /// pot; eight rounds (East 1-4, then South 1-4), each announced in the
    /// log and each played by the rules (`round_played`); then the placement
    /// bonus by rank (see `placement`); the result is logged and the final
    /// scores returned.
    pub fn run_hanchan(&mut self) -> (r: [i32; 4])
        requires
            old(self).honba <= 200,
        ensures
            forall|i: int| 0 <= i < 4 ==> r[i] == #[trigger] final(self).players[i].score,
            exists|bs: Seq<Simulator<A>>, af: Seq<Simulator<A>>|
                #![trigger bs.len(), af.len()]
                {
                    &&& bs.len() == 8
                    &&& af.len() == 8
                    &&& forall|i: int| 0 <= i < 4 ==> #[trigger] bs[0].players[i].score == 25000
                    &&& bs[0].dealer == 0
                    &&& bs[0].honba == old(self).honba
                    &&& forall|q: int| 0 <= q < 8 ==> #[trigger] round_played(bs[q], af[q])
                    &&& forall|q: int| 0 <= q < 8 ==> #[trigger] round_of(bs[q], q)
                    &&& forall|q: int|
                        1 <= q < 8 ==> #[trigger] bs[q].players == af[q - 1].players && bs[q].dealer == af[q
                            - 1].dealer && bs[q].honba == af[q - 1].honba
                    &&& forall|i: int|
                        0 <= i < 4 ==> #[trigger] final(self).players[i].score == af[7].players[i].score
                            + uma_points(placement(af[7].players, i))
                },
            99_992 <= score_sum(final(self).players) <= 100_016,
            final(self).riichi_sticks == 0,
            final(self).bot_ai == old(self).bot_ai,
            extends(final(self).log@, old(self).log@),
    {
        let mut i: usize = 0;
        while i < 4
            invariant
                i <= 4,
                forall|j: int| 0 <= j < i ==> #[trigger] self.players[j].score == 25000,
                self.honba == old(self).honba,
                self.bot_ai == old(self).bot_ai,
                self.log@ == old(self).log@,
            decreases 4 - i,
        {
            self.players[i].score = 25000;
            i = i + 1;
        }
        self.dealer = 0;
        self.riichi_sticks = 0;
        proof {
            assert(self.log@.take(self.log@.len() as int) =~= self.log@);
        }
        let ghost mut bs: Seq<Simulator<A>> = seq![];
        let ghost mut af: Seq<Simulator<A>> = seq![];
        let mut r: u8 = 0;
        while r < 8
            invariant
                r <= 8,
                bs.len() == r,
                af.len() == r,
                r == 0 ==> (forall|i: int| 0 <= i < 4 ==> #[trigger] self.players[i].score == 25000)
                    && self.dealer == 0 && self.honba == old(self).honba,
                r > 0 ==> af[r - 1].players == self.players && af[r - 1].dealer == self.dealer && af[r
                    - 1].honba == self.honba,
                r > 0 ==> forall|i: int| 0 <= i < 4 ==> #[trigger] bs[0].players[i].score == 25000,
                r > 0 ==> bs[0].dealer == 0 && bs[0].honba == old(self).honba,
                forall|q: int| 0 <= q < r ==> #[trigger] round_played(bs[q], af[q]),
                forall|q: int| 0 <= q < r ==> #[trigger] round_of(bs[q], q),
                forall|q: int|
                    1 <= q < r ==> #[trigger] bs[q].players == af[q - 1].players && bs[q].dealer == af[q - 1].dealer
                        && bs[q].honba == af[q - 1].honba,
                self.dealer < 4,
                self.honba <= old(self).honba + r,
                old(self).honba <= 200,
                self.riichi_sticks == 0,
                scores_within(self.players, 25000 + 40000 * r),
                100_000 - r <= score_sum(self.players) <= 100_000 + 2 * r,
                self.bot_ai == old(self).bot_ai,
                extends(self.log@, old(self).log@),
            decreases 8 - r,
        {
            self.round = r;
            self.round_wind = if r < 4 { 27 } else { 28 };
            let mut line = String::new();
            push_str(&mut line, "── ");
            let name = round_name(r);
            push_str(&mut line, name.as_str());
            push_str(&mut line, "局 ");
            push_decimal(&mut line, self.honba as u64);
            push_str(&mut line, "本場 ──");
            let ghost before = self.log@;
            self.log.push(line);
            proof {
                lemma_extends_push(before, line);
                lemma_extends_trans(self.log@, before, old(self).log@);
            }
            let ghost log0 = self.log@;
            let ghost pre = self.players;
            let ghost b = *self;
            self.run_round();
            proof {
                let bs0 = bs;
                let af0 = af;
                bs = bs.push(b);
                af = af.push(*self);
                assert forall|q: int| 0 <= q < r + 1 implies #[trigger] round_played(bs[q], af[q]) by {
                    if q < r {
                        assert(round_played(bs0[q], af0[q]));
                        assert(bs[q] == bs0[q] && af[q] == af0[q]);
                    } else {
                        assert(bs[q] == b && af[q] == *self);
                    }
                }
                assert forall|q: int| 0 <= q < r + 1 implies #[trigger] round_of(bs[q], q) by {
                    if q < r {
                        assert(round_of(bs0[q], q));
                        assert(bs[q] == bs0[q]);
                    } else {
                        assert(bs[q] == b);
                    }
                }
                assert forall|q: int|
                    1 <= q < r + 1 implies #[trigger] bs[q].players == af[q - 1].players && bs[q].dealer == af[q
                        - 1].dealer && bs[q].honba == af[q - 1].honba by {
                    if q < r {
                        assert(bs[q] == bs0[q] && af[q - 1] == af0[q - 1]);
                    } else {
                        assert(bs[q] == b);
                        assert(af[q - 1] == af0[q - 1]);
                    }
                }
                assert(bs[0] == (if r == 0 { b } else { bs0[0] }));
                lemma_extends_trans(self.log@, log0, old(self).log@);
                assert forall|j: int| 0 <= j < 4 implies -(25000 + 40000 * (r + 1)) <= #[trigger] self.players[j].score
                    <= 25000 + 40000 * (r + 1) by {
                    assert(-40000 <= self.players[j].score - pre[j].score <= 40000);
                }
            }
            r = r + 1;
        }

        // Final uma (placement bonus): 1st +20, 2nd +10, 3rd -10, 4th -20 (hundreds)
        let ghost pre = self.players;
        assert(af[7].players == pre);
        assert(99_992 <= score_sum(pre) <= 100_016);
        let mut ranks: [u8; 4] = [0; 4];
        let mut i: usize = 0;
        while i < 4
            invariant
                i <= 4,
                self.players == pre,
                scores_within(pre, 1_000_000),
                forall|j: int| 0 <= j < i ==> #[trigger] ranks[j] as int == placement(pre, j),
            decreases 4 - i,
        {
            let si = self.players[i].score;
            let mut rank: u8 = 0;
            let mut j: usize = 0;
            while j < 4
                invariant
                    j <= 4,
                    i < 4,
                    self.players == pre,
                    si == pre[i as int].score,
                    rank as int == (if j > 0 && ranks_before(pre, 0, i as int) { 1int } else { 0int }) + (if j > 1
                        && ranks_before(pre, 1, i as int) {
                        1int
                    } else {
                        0int
                    }) + (if j > 2 && ranks_before(pre, 2, i as int) { 1int } else { 0int }) + (if j > 3
                        && ranks_before(pre, 3, i as int) {
                        1int
                    } else {
                        0int
                    }),
                    rank <= j,
                decreases 4 - j,
            {
                let sj = self.players[j].score;
                if sj > si || (sj == si && j < i) {
                    rank = rank + 1;
                }
                j = j + 1;
            }
            ranks[i] = rank;
            i = i + 1;
        }
        proof {
            lemma_placements(pre);
        }
        let mut i: usize = 0;
        while i < 4
            invariant
                i <= 4,
                scores_within(pre, 1_000_000),
                forall|j: int| 0 <= j < 4 ==> #[trigger] ranks[j] as int == placement(pre, j),
                forall|j: int| 0 <= j < 4 ==> 0 <= #[trigger] placement(pre, j) <= 3,
                forall|j: int| 0 <= j < 4 ==> #[trigger] self.players[j].score == pre[j].score + (if j < i {
                    uma_points(placement(pre, j))
                } else {
                    0
                }),
                self.riichi_sticks == 0,
                self.bot_ai == old(self).bot_ai,
                extends(self.log@, old(self).log@),
            decreases 4 - i,
        {
            let bonus: i32 = match ranks[i] {
                0 => 20,
                1 => 10,
                2 => -10,
                _ => -20,
            };
            self.players[i].score = self.players[i].score + bonus * 100;  // convert to actual points
            i = i + 1;
        }
        assert(score_sum(self.players) == score_sum(pre)) by {
            assert(self.players[0].score == pre[0].score + uma_points(placement(pre, 0)));
            assert(self.players[1].score == pre[1].score + uma_points(placement(pre, 1)));
            assert(self.players[2].score == pre[2].score + uma_points(placement(pre, 2)));
            assert(self.players[3].score == pre[3].score + uma_points(placement(pre, 3)));
        }
        let ghost fin = self.players;
        let mut line = String::new();
        push_str(&mut line, "═══ Game Over ═══");
        let ghost before = self.log@;
        self.log.push(line);
        proof {
            lemma_extends_push(before, line);
            lemma_extends_trans(self.log@, before, old(self).log@);
        }
        let mut i: usize = 0;
        while i < 4
            invariant
                i <= 4,
                extends(self.log@, old(self).log@),
                self.players == fin,
                self.riichi_sticks == 0,
                self.bot_ai == old(self).bot_ai,
            decreases 4 - i,
        {
            let mut line = String::new();
            push_str(&mut line, "P");
            push_decimal(&mut line, i as u64);
            push_str(&mut line, ": ");
            push_signed(&mut line, self.players[i].score as i64);
            push_str(&mut line, " pts");
            let ghost before = self.log@;
            self.log.push(line);
            proof {
                lemma_extends_push(before, line);
                lemma_extends_trans(self.log@, before, old(self).log@);
            }
            i = i + 1;
        }
        assert(forall|j: int| 0 <= j < 4 ==> #[trigger] self.players[j].score == pre[j].score + uma_points(
            placement(pre, j),
        ));
        assert(placement(pre, 0) == placement(pre, 0));
        [self.players[0].score, self.players[1].score, self.players[2].score, self.players[3].score]
    }

    /// The next tile of the wall.
    fn draw_wall(&mut self) -> (t: Tile136)
        requires
            old(self).wall_pos < old(self).wall@.len(),
        ensures
            t == old(self).wall@[old(self).wall_pos as int],
            *final(self) == (Simulator { wall_pos: (old(self).wall_pos + 1) as usize, ..*old(self) }),
    {
        let n = self.wall.len();
        let t = self.wall[self.wall_pos];
        assert(self.wall_pos < n);
        self.wall_pos = self.wall_pos + 1;
        t
    }

    /// A new shuffled wall of all 136 tiles.
    fn build_wall() -> (wall: Vec<Tile136>)
        ensures
            wall@.len() == 136,
            wall@.to_multiset() == full_set().to_multiset(),
    {
        let mut tiles: Vec<Tile136> = Vec::new();
        let mut t34: u8 = 0;
        while t34 < 34
            invariant
                t34 <= 34,
                tiles@ == full_set().take(4 * t34),
            decreases 34 - t34,
        {
            let mut copy: u8 = 0;
            while copy < 4
                invariant
                    t34 < 34,
                    copy <= 4,
                    tiles@ == full_set().take(4 * t34 + copy),
                decreases 4 - copy,
            {
                let t136 = (t34 as Tile136) * 4 + (copy as Tile136);
                if t34 == 4 && copy == 0 {
                    tiles.push(16);
                } else if t34 == 13 && copy == 0 {
                    tiles.push(52);
                } else if t34 == 22 && copy == 0 {
                    tiles.push(88);
                } else {
                    tiles.push(t136);
                }
                assert(full_set().take(4 * t34 + copy + 1) =~= full_set().take(4 * t34 + copy).push(
                    t136,
                ));
                copy = copy + 1;
            }
            t34 = t34 + 1;
        }
        assert(full_set().take(136) =~= full_set());
        shuffle_tiles(&mut tiles);
        tiles
    }
}

} // verus!
