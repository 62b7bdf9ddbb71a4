//! Game state tracking: the full view of the game from the bot's perspective.

use vstd::prelude::*;
use crate::tile::{
    Tile136, Tile34, Suit, t136_to_t34, spec_t136_to_t34, tile34_suit, tile34_number, spec_tile34_suit,
    spec_tile34_number,
};
use crate::meld::{Meld, meld_tiles, types_of, tile_types, lemma_meld_tiles_take, same_meld, copy_meld, meld_text};
use crate::tile::{tile34_display, tile34_name, tiles136_display, tiles34_text};
use crate::text::{signed_decimal, push_signed};
use crate::protocol::{TenhouMessage, MeldInfo, ServerMessage, parse_csv_i32, parse_csv_u16, parse_u8, parse_u16, parse_i32, csv_i32, csv_u16, parse_in_range};
use crate::text::push_char;
use vstd::utf8::encode_utf8;
use vstd::string::StringSliceAdditionalSpecFns;
use crate::text::{decimal, push_str, push_decimal};
use crate::shanten::{ints, tile_counts, countable, count_tile};

verus! {

/// Player state from the bot's perspective.
#[derive(Debug, Clone)]
pub struct PlayerState {
    /// Player name
    pub name: String,
    /// Player level (dan/kyu)
    pub level: String,
    /// Current score
    pub score: i32,
    /// Tiles in hand (136 format), sorted. Empty for opponents.
    pub hand_136: Vec<Tile136>,
    /// Discard pile (136 format), in order
    pub discards: Vec<Tile136>,
    /// Called melds
    pub melds: Vec<Meld>,
    /// Whether this player has declared riichi
    pub is_riichi: bool,
    /// Seat position (0-3)
    pub seat: u8,
    /// Is this the bot?
    pub is_bot: bool,
}

/// The wind offset of a seat from the dealer, computed in `i8` as
/// `(4 + seat as i8 - dealer as i8) as u8 % 4`.
pub open spec fn wind_offset(seat: u8, dealer: u8) -> int {
    ((((4 + (seat as i8) - (dealer as i8)) as i8) as u8) % 4) as int
}

/// `4 + seat as i8 - dealer as i8` stays within `i8`.
pub open spec fn wind_in_range(seat: u8, dealer: u8) -> bool {
    &&& 4 + (seat as i8) <= 127
    &&& -128 <= 4 + (seat as i8) - (dealer as i8) <= 127
}

impl PlayerState {
    pub fn new(seat: u8, is_bot: bool) -> (r: Self)
        ensures
            r.name@ == "Player"@ + decimal(seat as nat),
            r.level@ == Seq::<char>::empty(),
            r.score == 25000,
            r.hand_136@.len() == 0,
            r.discards@.len() == 0,
            r.melds@.len() == 0,
            !r.is_riichi,
            r.seat == seat,
            r.is_bot == is_bot,
    {
        let mut name = String::new();
        push_str(&mut name, "Player");
        push_decimal(&mut name, seat as u64);
        PlayerState {
            name,
            level: String::new(),
            score: 25000,
            hand_136: Vec::new(),
            discards: Vec::new(),
            melds: Vec::new(),
            is_riichi: false,
            seat,
            is_bot,
        }
    }

    /// Get tiles in hand as tile34.
    pub fn hand34(&self) -> (r: Vec<Tile34>)
        ensures
            r@ == types_of(self.hand_136@),
    {
        tile_types(self.hand_136.as_slice())
    }

    /// Get all tiles from melds as tile34.
    pub fn meld_tiles34(&self) -> (r: Vec<Tile34>)
        ensures
            r@ == types_of(meld_tiles(self.melds@)),
    {
        let mut r: Vec<Tile34> = Vec::new();
        let mut j: usize = 0;
        while j < self.melds.len()
            invariant
                j <= self.melds@.len(),
                r@ == types_of(meld_tiles(self.melds@.take(j as int))),
            decreases self.melds@.len() - j,
        {
            let part = self.melds[j].tiles34();
            let mut k: usize = 0;
            let ghost before = r@;
            while k < part.len()
                invariant
                    k <= part@.len(),
                    r@ == before + part@.take(k as int),
                decreases part@.len() - k,
            {
                r.push(part[k]);
                assert(part@.take(k + 1) =~= part@.take(k as int).push(part@[k as int]));
                k = k + 1;
            }
            proof {
                lemma_meld_tiles_take(self.melds@, j as int);
                assert(part@.take(k as int) =~= part@);
                assert(types_of(meld_tiles(self.melds@.take(j + 1))) =~= types_of(
                    meld_tiles(self.melds@.take(j as int)),
                ) + types_of(self.melds@[j as int].tiles@));
            }
            j = j + 1;
        }
        assert(self.melds@.take(self.melds@.len() as int) =~= self.melds@);
        r
    }

    /// Count of tiles in hand.
    pub fn hand_size(&self) -> (r: usize)
        ensures
            r == self.hand_136@.len(),
    {
        self.hand_136.len()
    }

    /// Player wind based on seat and dealer: East for the dealer, then South,
    /// West and North in seat order.
    pub fn player_wind(&self, dealer_seat: u8) -> (r: Tile34)
        requires
            wind_in_range(self.seat, dealer_seat),
        ensures
            r == 27 + wind_offset(self.seat, dealer_seat),
    {
        let relative = (4 + self.seat as i8 - dealer_seat as i8) as u8 % 4;
        match relative {
            0 => 27,  // East
            1 => 28,  // South
            2 => 29,  // West
            _ => 30,  // North
        }
    }
}

/// Convert a dora indicator to the actual dora tile: the next tile of the same
/// suit (9 wraps to 1), winds cycle E-S-W-N, dragons cycle Haku-Hatsu-Chun;
/// values above 33 are returned unchanged.
pub open spec fn spec_indicator_to_dora(indicator: Tile34) -> Tile34 {
    if indicator == 8 {
        0
    } else if indicator == 17 {
        9
    } else if indicator == 26 {
        18
    } else if indicator == 30 {
        27
    } else if indicator == 33 {
        31
    } else if indicator <= 32 {
        (indicator + 1) as Tile34
    } else {
        indicator
    }
}

/// Convert a dora indicator to the actual dora tile.
pub fn indicator_to_dora(indicator: Tile34) -> (r: Tile34)
    ensures
        r == spec_indicator_to_dora(indicator),
{
    match indicator {
        // 1-8m -> 2-9m, 9m -> 1m
        0..=7 => indicator + 1,
        8 => 0,
        // 1-8p -> 2-9p, 9p -> 1p
        9..=16 => indicator + 1,
        17 => 9,
        // 1-8s -> 2-9s, 9s -> 1s
        18..=25 => indicator + 1,
        26 => 18,
        // East -> South -> West -> North -> East
        27 => 28,
        28 => 29,
        29 => 30,
        30 => 27,
        // Haku -> Hatsu -> Chun -> Haku
        31 => 32,
        32 => 33,
        33 => 31,
        _ => indicator,
    }
}

/// Some discard in `d` has tile type `t`.
pub open spec fn discarded_type(d: Seq<Tile136>, t: int) -> bool {
    exists|i: int| 0 <= i < d.len() && spec_t136_to_t34(#[trigger] d[i]) == t
}

/// First tile type of a number suit.
pub open spec fn suit_base(s: Suit) -> int {
    match s {
        Suit::Man => 0,
        Suit::Pin => 9,
        Suit::Sou => 18,
        Suit::Honor => 27,
    }
}

/// Whether discarding `tile136` is safe against `opponent`: the opponent has
/// discarded a tile of the same type (genbutsu), or the opponent is in riichi
/// and the tile is a suji number tile: along its line 1-4-7, 2-5-8 or 3-6-9,
/// each neighbour three away (below and above, where there is one) has been
/// discarded in the same suit. So 1-3 need the tile three above, 7-9 the tile
/// three below, and 4-6 both.
pub open spec fn spec_is_safe_tile(tile136: Tile136, opponent: PlayerState) -> bool {
    let t = spec_t136_to_t34(tile136);
    let d = opponent.discards@;
    let suit = spec_tile34_suit(t);
    let n = spec_tile34_number(t) as int;
    ||| discarded_type(d, t as int)
    ||| opponent.is_riichi && suit != Suit::Honor && {
        &&& (n + 3 <= 9 ==> discarded_type(d, suit_base(suit) + n + 2))
        &&& (n - 3 >= 1 ==> discarded_type(d, suit_base(suit) + n - 4))
    }
}

fn has_discarded_type(d: &Vec<Tile136>, t: Tile34) -> (r: bool)
    ensures
        r == discarded_type(d@, t as int),
{
    let mut i: usize = 0;
    while i < d.len()
        invariant
            i <= d@.len(),
            forall|j: int| 0 <= j < i ==> spec_t136_to_t34(#[trigger] d@[j]) != t,
        decreases d@.len() - i,
    {
        if t136_to_t34(d[i]) == t {
            return true;
        }
        i = i + 1;
    }
    false
}

/// Check if a discard is safe against a specific opponent (simplified version).
/// A tile is "safe" if it is in the opponent's discard pile (genbutsu), or it
/// is a suji tile after their riichi.
pub fn is_safe_tile(tile136: Tile136, opponent: &PlayerState, _all_discards: &[Tile136]) -> (r: bool)
    ensures
        r == spec_is_safe_tile(tile136, *opponent),
{
    let tile34 = t136_to_t34(tile136);
    // Genbutsu: exact same tile in opponent's discards
    if has_discarded_type(&opponent.discards, tile34) {
        return true;
    }
    // If the opponent is in riichi, check suji: each neighbour three away
    // along the tile's line must have been discarded.
    if opponent.is_riichi {
        let suit = tile34_suit(tile34);
        if suit != Suit::Honor {
            let num = tile34_number(tile34);
            let base: u8 = match suit {
                Suit::Man => 0,
                Suit::Pin => 9,
                Suit::Sou => 18,
                Suit::Honor => 27,
            };
            let above = num + 3 > 9 || has_discarded_type(&opponent.discards, base + num + 2);
            let below = num < 4 || has_discarded_type(&opponent.discards, base + num - 4);
            return above && below;
        }
    }
    false
}

/// Tiles of one opponent that are face up: its discards, then its meld
/// tiles; nothing for the bot's own seat.
pub open spec fn opponent_visible(gs: GameState, i: int) -> Seq<Tile136> {
    if i == gs.bot_seat as int {
        seq![]
    } else {
        gs.players[i].discards@ + meld_tiles(gs.players[i].melds@)
    }
}

/// The face-up tiles of the opponents of seats below `n`, seat by seat.
pub open spec fn opponents_visible(gs: GameState, n: int) -> Seq<Tile136>
    decreases n,
{
    if n <= 0 {
        seq![]
    } else {
        opponents_visible(gs, n - 1) + opponent_visible(gs, n - 1)
    }
}

/// Every tile the bot knows is not left to draw, in the order
/// `visible_counts` counts them: its hand, its meld tiles, its own discards,
/// the dora indicators, then each opponent's discards and meld tiles.
pub open spec fn visible_tiles(gs: GameState) -> Seq<Tile136> {
    let b = gs.players[gs.bot_seat as int];
    b.hand_136@ + meld_tiles(b.melds@) + b.discards@ + gs.dora_indicators@ + opponents_visible(gs, 4)
}

proof fn lemma_opponents_prefix(gs: GameState, i: int, n: int)
    requires
        0 <= i <= n,
    ensures
        opponents_visible(gs, i).len() <= opponents_visible(gs, n).len(),
        opponents_visible(gs, n).take(opponents_visible(gs, i).len() as int) == opponents_visible(gs, i),
    decreases n - i,
{
    if i < n {
        lemma_opponents_prefix(gs, i, n - 1);
        let a = opponents_visible(gs, i);
        let b = opponents_visible(gs, n - 1);
        assert(opponents_visible(gs, n) == b + opponent_visible(gs, n - 1));
        assert(opponents_visible(gs, n).take(a.len() as int) =~= b.take(a.len() as int));
    } else {
        assert(opponents_visible(gs, n).take(opponents_visible(gs, n).len() as int) =~= opponents_visible(gs, n));
    }
}

/// Adds the tiles of `tiles` to the count table.
pub(crate) fn count_slice(
    counts: &mut [i8; 34],
    tiles: &[Tile136],
    Ghost(seen): Ghost<Seq<Tile136>>,
    Ghost(all): Ghost<Seq<Tile136>>,
)
    requires
        countable(all),
        seen.len() + tiles@.len() <= all.len(),
        all.take((seen.len() + tiles@.len()) as int) == seen + tiles@,
        ints(old(counts)@) == tile_counts(seen),
    ensures
        ints(final(counts)@) == tile_counts(seen + tiles@),
{
    let mut i: usize = 0;
    while i < tiles.len()
        invariant
            countable(all),
            i <= tiles@.len(),
            seen.len() + tiles@.len() <= all.len(),
            all.take((seen.len() + tiles@.len()) as int) == seen + tiles@,
            ints(counts@) == tile_counts(seen + tiles@.take(i as int)),
        decreases tiles@.len() - i,
    {
        let ghost s = seen + tiles@.take(i as int);
        assert(s.push(tiles@[i as int]) =~= seen + tiles@.take(i + 1));
        assert(all.take(s.len() + 1int) =~= (seen + tiles@).take(s.len() + 1int));
        assert((seen + tiles@).take(s.len() + 1int) =~= s.push(tiles@[i as int]));
        count_tile(counts, tiles[i], Ghost(s), Ghost(all));
        i = i + 1;
    }
    assert(tiles@.take(tiles@.len() as int) =~= tiles@);
}

/// Adds the tiles of every meld of `melds` to the count table.
fn count_melds(
    counts: &mut [i8; 34],
    melds: &Vec<Meld>,
    Ghost(seen): Ghost<Seq<Tile136>>,
    Ghost(all): Ghost<Seq<Tile136>>,
)
    requires
        countable(all),
        seen.len() + meld_tiles(melds@).len() <= all.len(),
        all.take((seen.len() + meld_tiles(melds@).len()) as int) == seen + meld_tiles(melds@),
        ints(old(counts)@) == tile_counts(seen),
    ensures
        ints(final(counts)@) == tile_counts(seen + meld_tiles(melds@)),
{
    let ghost full = seen + meld_tiles(melds@);
    let mut j: usize = 0;
    while j < melds.len()
        invariant
            countable(all),
            j <= melds@.len(),
            full == seen + meld_tiles(melds@),
            full.len() <= all.len(),
            all.take(full.len() as int) == full,
            ints(counts@) == tile_counts(seen + meld_tiles(melds@.take(j as int))),
        decreases melds@.len() - j,
    {
        proof {
            lemma_meld_tiles_take(melds@, j as int);
            crate::meld::lemma_meld_tiles_prefix(melds@, j + 1);
        }
        let ghost s = seen + meld_tiles(melds@.take(j as int));
        let ghost mt = melds@[j as int].tiles@;
        let ghost s2 = seen + meld_tiles(melds@.take(j + 1));
        assert(s2 =~= s + mt);
        assert(full.take(s2.len() as int) =~= s2);
        assert(all.take(s2.len() as int) =~= s2);
        count_slice(counts, melds[j].tiles.as_slice(), Ghost(s), Ghost(all));
        j = j + 1;
    }
    assert(melds@.take(melds@.len() as int) =~= melds@);
}

/// The names of tile types, one after another.
pub open spec fn names_text(s: Seq<Tile34>) -> Seq<char>
    decreases s.len(),
{
    if s.len() == 0 {
        seq![]
    } else {
        names_text(s.drop_last()) + tile34_name(s.last())
    }
}

/// The display texts of melds, separated by ", ".
pub open spec fn melds_text(m: Seq<Meld>) -> Seq<char>
    decreases m.len(),
{
    if m.len() == 0 {
        seq![]
    } else if m.len() == 1 {
        meld_text(m[0])
    } else {
        melds_text(m.drop_last()) + ", "@ + meld_text(m.last())
    }
}

/// The one-line summary of the game for logging.
pub open spec fn state_text(gs: GameState) -> Seq<char> {
    let bot = gs.players[gs.bot_seat as int];
    "Round: "@ + decimal((gs.round + 1) as nat) + "局"@ + decimal(gs.honba as nat) + "本場 | Dora: "@ + names_text(
        types_of(gs.dora_indicators@).map_values(|t: Tile34| spec_indicator_to_dora(t)),
    ) + " | Hand: "@ + tiles34_text(types_of(bot.hand_136@)) + " | Discards: "@ + tiles34_text(
        types_of(bot.discards@),
    ) + " | Melds: "@ + melds_text(bot.melds@) + " | Score: "@ + signed_decimal(bot.score as int)
}

/// Overall game state.
#[derive(Debug, Clone)]
pub struct GameState {
    /// All 4 players
    pub players: [PlayerState; 4],
    /// Bot's seat (always 0 in the Tenhou protocol)
    pub bot_seat: u8,
    /// Dealer seat
    pub dealer_seat: u8,
    /// Round number (0=East 1, 1=East 2, ..., 3=East 4, 4=South 1, ...)
    pub round: u8,
    /// Honba count
    pub honba: u8,
    /// Reach sticks in pot
    pub reach_sticks: u8,
    /// Dora indicators (tiles that indicate what the dora is)
    pub dora_indicators: Vec<Tile136>,
    /// Whether red fives are in play
    pub aka_ari: bool,
    /// Whether open tanyao is allowed
    pub open_tanyao: bool,
    /// Whether this is a tonnansen (east+south) game
    pub is_tonnansen: bool,
    /// Round wind (27=East, 28=South, 29=West based on round)
    pub round_wind: Tile34,
    /// Tiles remaining in the wall
    pub tiles_left: u8,
    /// Whether bot is currently in riichi
    pub bot_riichi: bool,
    /// Last drawn tile (for tsumogiri detection)
    pub last_drawn_tile: Option<Tile136>,
    /// Whose turn is it to discard (current actor)
    pub current_actor: Option<u8>,
    /// Is game in progress?
    pub game_active: bool,
    /// Lobby type
    pub lobby: u8,
    /// Game type (bitmask)
    pub game_type: u8,
    /// Is searching for a game
    pub is_searching: bool,
    /// Authenticated
    pub authenticated: bool,
}

/// The state every fresh game starts from.
pub open spec fn spec_new_state(gs: GameState, lobby: u8, game_type: u8) -> bool {
    &&& forall|i: int| 0 <= i < 4 ==> {
        let p = #[trigger] gs.players[i];
        &&& p.name@ == "Player"@ + decimal(i as nat)
        &&& p.level@ == Seq::<char>::empty()
        &&& p.score == 25000
        &&& p.hand_136@.len() == 0
        &&& p.discards@.len() == 0
        &&& p.melds@.len() == 0
        &&& !p.is_riichi
        &&& p.seat == i
        &&& p.is_bot == (i == 0)
    }
    &&& gs.bot_seat == 0
    &&& gs.dealer_seat == 0
    &&& gs.round == 0
    &&& gs.honba == 0
    &&& gs.reach_sticks == 0
    &&& gs.dora_indicators@.len() == 0
    &&& gs.aka_ari
    &&& gs.open_tanyao
    &&& !gs.is_tonnansen
    &&& gs.round_wind == 27
    &&& gs.tiles_left == 70
    &&& !gs.bot_riichi
    &&& gs.last_drawn_tile is None
    &&& gs.current_actor is None
    &&& !gs.game_active
    &&& gs.lobby == lobby
    &&& gs.game_type == game_type
    &&& !gs.is_searching
    &&& !gs.authenticated
}

/// Bit `k` of `u` (bit 0 is the lowest).
pub open spec fn bit(u: u32, k: nat) -> u32
    decreases k,
{
    if k == 0 {
        u % 2
    } else {
        bit(u / 2, (k - 1) as nat)
    }
}

/// Flag `k` of a game type: bit `k` counted from the least significant
/// (bit 3 tonnansen, bit 4 no open tanyao, bit 5 no red fives).
pub open spec fn game_flag(game_type: i32, k: nat) -> bool {
    bit(game_type as u32, k) == 1
}

/// Bit `k` of `u`, by repeated halving.
fn bit_of(u: u32, k: u32) -> (r: u32)
    ensures
        r == bit(u, k as nat),
        r <= 1,
{
    let mut v = u;
    let mut i: u32 = 0;
    while i < k
        invariant
            i <= k,
            bit(u, k as nat) == bit(v, (k - i) as nat),
        decreases k - i,
    {
        v = v / 2;
        i = i + 1;
    }
    v % 2
}

/// The game type of an i32, seen as 32 bits.
fn as_bits(game_type: i32) -> (r: u32)
    ensures
        r == game_type as u32,
{
    game_type as u32
}

/// Ascending order.
pub open spec fn sorted(s: Seq<Tile136>) -> bool {
    forall|i: int, j: int| 0 <= i <= j < s.len() ==> s[i] <= s[j]
}

/// Where `x` goes in `s` from index `i` on: past every tile not above it,
/// up to the first tile above it.
pub open spec fn place_from(s: Seq<Tile136>, x: Tile136, i: int) -> int
    decreases s.len() - i,
{
    if i < 0 || i >= s.len() || s[i] > x {
        i
    } else {
        place_from(s, x, i + 1)
    }
}

/// `s` with `x` inserted before its first tile above `x` (at the end if there
/// is none): in a sorted hand, the tile's place in order.
pub open spec fn with_tile(s: Seq<Tile136>, x: Tile136) -> Seq<Tile136> {
    s.insert(place_from(s, x, 0), x)
}

proof fn lemma_place_from(s: Seq<Tile136>, x: Tile136, i: int)
    requires
        0 <= i <= s.len(),
        forall|j: int| 0 <= j < i ==> s[j] <= x,
    ensures
        i <= place_from(s, x, i) <= s.len(),
        place_from(s, x, i) < s.len() ==> s[place_from(s, x, i)] > x,
        forall|j: int| 0 <= j < place_from(s, x, i) ==> s[j] <= x,
    decreases s.len() - i,
{
    if i < s.len() && s[i] <= x {
        lemma_place_from(s, x, i + 1);
    }
}

/// Inserting a tile into a sorted hand keeps it sorted and adds just that tile.
pub proof fn lemma_with_tile_sorted(s: Seq<Tile136>, x: Tile136)
    requires
        sorted(s),
    ensures
        sorted(with_tile(s, x)),
        with_tile(s, x).to_multiset() == s.push(x).to_multiset(),
{
    broadcast use vstd::seq_lib::group_to_multiset_ensures;

    let pos = place_from(s, x, 0);
    lemma_place_from(s, x, 0);
    let r = with_tile(s, x);
    assert forall|a: int, b: int| 0 <= a <= b < r.len() implies r[a] <= r[b] by {
        if a < pos && b > pos {
            assert(r[a] == s[a]);
            assert(r[b] == s[b - 1]);
        } else if a < pos && b == pos {
            assert(r[a] == s[a]);
        } else if a == pos && b > pos {
            assert(r[b] == s[b - 1]);
            assert(s[pos] > x);
            assert(s[pos] <= s[b - 1]);
        } else if a > pos {
            assert(r[a] == s[a - 1]);
            assert(r[b] == s[b - 1]);
        } else if b < pos {
            assert(r[a] == s[a]);
            assert(r[b] == s[b]);
        }
    }
    vstd::seq_lib::to_multiset_insert(s, pos, x);
}

/// Insert `x` before the first tile above it.
pub(crate) fn insert_tile(v: &mut Vec<Tile136>, x: Tile136)
    ensures
        final(v)@ == with_tile(old(v)@, x),
{
    let mut pos: usize = 0;
    proof {
        lemma_place_from(v@, x, 0);
    }
    while pos < v.len() && v[pos] <= x
        invariant
            pos <= v@.len(),
            place_from(v@, x, pos as int) == place_from(v@, x, 0),
        decreases v@.len() - pos,
    {
        pos = pos + 1;
    }
    v.insert(pos, x);
}

/// A sorted copy of `v` (insertion sort).
pub fn sort_tiles(v: &[Tile136]) -> (r: Vec<Tile136>)
    ensures
        sorted(r@),
        r@.to_multiset() == v@.to_multiset(),
{
    broadcast use vstd::seq_lib::group_to_multiset_ensures;

    let mut r: Vec<Tile136> = Vec::new();
    let mut i: usize = 0;
    while i < v.len()
        invariant
            i <= v@.len(),
            sorted(r@),
            r@.to_multiset() == v@.take(i as int).to_multiset(),
        decreases v@.len() - i,
    {
        let x = v[i];
        proof {
            lemma_with_tile_sorted(r@, x);
            assert(v@.take(i + 1) =~= v@.take(i as int).push(x));
            vstd::seq_lib::to_multiset_build(v@.take(i as int), x);
            vstd::seq_lib::to_multiset_build(r@, x);
        }
        insert_tile(&mut r, x);
        i = i + 1;
    }
    assert(v@.take(v@.len() as int) =~= v@);
    r
}

/// A copy of a tile list.
fn copy_tiles(v: &Vec<Tile136>) -> (r: Vec<Tile136>)
    ensures
        r@ == v@,
{
    let mut r: Vec<Tile136> = Vec::new();
    let mut i: usize = 0;
    while i < v.len()
        invariant
            i <= v@.len(),
            r@ == v@.take(i as int),
        decreases v@.len() - i,
    {
        r.push(v[i]);
        assert(v@.take(i + 1) =~= v@.take(i as int).push(v@[i as int]));
        i = i + 1;
    }
    assert(v@.take(v@.len() as int) =~= v@);
    r
}

/// Round wind from the round number: East for rounds 0-3, South for 4-7, West after.
pub open spec fn round_wind_of(round: u8) -> Tile34 {
    if round / 4 == 0 {
        27
    } else if round / 4 == 1 {
        28
    } else {
        29
    }
}

/// `q` is player `p` at the start of a round: same identity, score `score`,
/// no riichi, discards `disc`, melds `melds`, and (for the bot) the dealt tiles
/// `hai` in sorted order, or (for the others) an empty hand.
pub open spec fn round_start(
    p: PlayerState,
    q: PlayerState,
    score: i32,
    is_bot_seat: bool,
    hai: Seq<Tile136>,
    disc: Seq<Tile136>,
    melds: Seq<MeldInfo>,
) -> bool {
    &&& q.name == p.name
    &&& q.level == p.level
    &&& q.seat == p.seat
    &&& q.is_bot == p.is_bot
    &&& q.score == score
    &&& !q.is_riichi
    &&& q.discards@ == disc
    &&& q.melds@.len() == melds.len()
    &&& forall|j: int| 0 <= j < melds.len() ==> same_meld(#[trigger] q.melds@[j], melds[j].meld)
    &&& if is_bot_seat {
        sorted(q.hand_136@) && q.hand_136@.to_multiset() == hai.to_multiset()
    } else {
        q.hand_136@.len() == 0
    }
}

/// The state after a round starts (INIT, or REINIT with the discards `kawa`
/// and melds `ml` of each seat). `seed` is [round, honba, reach sticks, dora
/// indicators...]; `ten` holds the four scores when it has exactly four entries.
pub open spec fn init_post(
    old: GameState,
    new: GameState,
    seed: Seq<i32>,
    ten: Seq<i32>,
    oya: u8,
    hai: Seq<Tile136>,
    kawa: Seq<Seq<Tile136>>,
    ml: Seq<Seq<MeldInfo>>,
) -> bool {
    &&& new.round == (if seed.len() >= 1 { seed[0] as u8 } else { old.round })
    &&& new.honba == (if seed.len() >= 2 { seed[1] as u8 } else { old.honba })
    &&& new.reach_sticks == (if seed.len() >= 3 { seed[2] as u8 } else { old.reach_sticks })
    &&& new.dora_indicators@ == (if seed.len() >= 4 {
        seed.skip(3).map_values(|x: i32| x as u16)
    } else {
        old.dora_indicators@
    })
    &&& new.round_wind == round_wind_of(new.round)
    &&& new.dealer_seat == oya
    &&& !new.bot_riichi
    &&& new.tiles_left == 70
    &&& new.last_drawn_tile is None
    &&& new.current_actor == Some(oya)
    &&& forall|i: int|
        0 <= i < 4 ==> round_start(
            old.players[i],
            #[trigger] new.players[i],
            if ten.len() == 4 { ten[i] } else { old.players[i].score },
            i == old.bot_seat,
            hai,
            kawa[i],
            ml[i],
        )
    &&& new.bot_seat == old.bot_seat
    &&& new.aka_ari == old.aka_ari
    &&& new.open_tanyao == old.open_tanyao
    &&& new.is_tonnansen == old.is_tonnansen
    &&& new.game_active == old.game_active
    &&& new.lobby == old.lobby
    &&& new.game_type == old.game_type
    &&& new.is_searching == old.is_searching
    &&& new.authenticated == old.authenticated
}

pub open spec fn empty_kawa() -> Seq<Seq<Tile136>> {
    seq![seq![], seq![], seq![], seq![]]
}

pub open spec fn empty_melds() -> Seq<Seq<MeldInfo>> {
    seq![seq![], seq![], seq![], seq![]]
}

/// `s` without any copy of `t`.
pub open spec fn without_tile(s: Seq<Tile136>, t: Tile136) -> Seq<Tile136>
    decreases s.len(),
{
    if s.len() == 0 {
        seq![]
    } else if s.last() == t {
        without_tile(s.drop_last(), t)
    } else {
        without_tile(s.drop_last(), t).push(s.last())
    }
}

pub(crate) fn remove_all(v: &Vec<Tile136>, t: Tile136) -> (r: Vec<Tile136>)
    ensures
        r@ == without_tile(v@, t),
{
    let mut r: Vec<Tile136> = Vec::new();
    let mut i: usize = 0;
    while i < v.len()
        invariant
            i <= v@.len(),
            r@ == without_tile(v@.take(i as int), t),
        decreases v@.len() - i,
    {
        assert(v@.take(i + 1).drop_last() =~= v@.take(i as int));
        if v[i] != t {
            r.push(v[i]);
        }
        i = i + 1;
    }
    assert(v@.take(v@.len() as int) =~= v@);
    r
}

/// Player `w` of `new` is player `w` of `old` with `q`'s changes, every other player unchanged.
pub open spec fn only_player_changed(old: GameState, new: GameState, w: int) -> bool {
    forall|i: int| 0 <= i < 4 && i != w ==> #[trigger] new.players[i] == old.players[i]
}

/// What `update` requires: the bot's seat is a seat, and a discard, a meld or a
/// first-step riichi names a seat.
pub open spec fn update_ok(gs: GameState, msg: TenhouMessage) -> bool {
    &&& gs.bot_seat < 4
    &&& match msg {
        TenhouMessage::Discard { who, .. } => who < 4,
        TenhouMessage::Meld { who, .. } => who < 4,
        TenhouMessage::Reach { who, step } => step == 1 ==> who < 4,
        _ => true,
    }
}

/// The state after `update` with `msg`.
pub open spec fn update_post(old: GameState, new: GameState, msg: TenhouMessage) -> bool {
    let bs = old.bot_seat as int;
    match msg {
        TenhouMessage::Init { seed, ten, oya, hai, .. } => init_post(
            old,
            new,
            seed@,
            ten@,
            oya,
            hai@,
            empty_kawa(),
            empty_melds(),
        ),
        TenhouMessage::Reinit { seed, ten, oya, hai, kawa, melds } => init_post(
            old,
            new,
            seed@,
            ten@,
            oya,
            hai@,
            seq![kawa[0]@, kawa[1]@, kawa[2]@, kawa[3]@],
            seq![melds[0]@, melds[1]@, melds[2]@, melds[3]@],
        ),
        TenhouMessage::Draw { who, tile } => {
            let bot_draws = who == old.bot_seat && tile is Some;
            &&& new == (GameState {
                players: new.players,
                tiles_left: if old.tiles_left > 0 { (old.tiles_left - 1) as u8 } else { 0 },
                last_drawn_tile: if bot_draws { tile } else { old.last_drawn_tile },
                current_actor: Some(who),
                ..old
            })
            &&& only_player_changed(old, new, bs)
            &&& new.players[bs] == (PlayerState { hand_136: new.players[bs].hand_136, ..old.players[bs] })
            &&& new.players[bs].hand_136@ == if bot_draws {
                with_tile(old.players[bs].hand_136@, tile->0)
            } else {
                old.players[bs].hand_136@
            }
        },
        TenhouMessage::Discard { who, tile, .. } => {
            &&& new == (GameState {
                players: new.players,
                last_drawn_tile: None,
                current_actor: None,
                ..old
            })
            &&& only_player_changed(old, new, who as int)
            &&& new.players[who as int] == (PlayerState {
                hand_136: new.players[who as int].hand_136,
                discards: new.players[who as int].discards,
                ..old.players[who as int]
            })
            &&& new.players[who as int].discards@ == old.players[who as int].discards@.push(tile)
            &&& new.players[who as int].hand_136@ == if who == old.bot_seat {
                without_tile(old.players[who as int].hand_136@, tile)
            } else {
                old.players[who as int].hand_136@
            }
        },
        TenhouMessage::Meld { who, meld, .. } => {
            &&& new == (GameState { players: new.players, current_actor: Some(who), ..old })
            &&& only_player_changed(old, new, who as int)
            &&& new.players[who as int] == (PlayerState {
                melds: new.players[who as int].melds,
                ..old.players[who as int]
            })
            &&& new.players[who as int].melds@.len() == old.players[who as int].melds@.len() + 1
            &&& new.players[who as int].melds@.drop_last() == old.players[who as int].melds@
            &&& same_meld(new.players[who as int].melds@.last(), meld)
        },
        TenhouMessage::Reach { who, step } => if step == 1 {
            &&& new == (GameState {
                players: new.players,
                bot_riichi: if who == old.bot_seat { true } else { old.bot_riichi },
                ..old
            })
            &&& only_player_changed(old, new, who as int)
            &&& new.players[who as int] == (PlayerState { is_riichi: true, ..old.players[who as int] })
        } else {
            new == old
        },
        TenhouMessage::Dora { tile } => {
            &&& new == (GameState { dora_indicators: new.dora_indicators, ..old })
            &&& new.dora_indicators@ == old.dora_indicators@.push(tile)
        },
        TenhouMessage::Agari { .. } => new == (GameState { game_active: false, ..old }),
        TenhouMessage::Ryuukyoku { .. } => new == (GameState { game_active: false, ..old }),
        TenhouMessage::GameEnd { .. } => new == (GameState { game_active: false, ..old }),
        TenhouMessage::Go { game_type } => {
            &&& new == (GameState {
                game_active: true,
                aka_ari: new.aka_ari,
                open_tanyao: new.open_tanyao,
                is_tonnansen: new.is_tonnansen,
                ..old
            })
            &&& new.aka_ari == !game_flag(game_type, 5)
            &&& new.open_tanyao == !game_flag(game_type, 4)
            &&& new.is_tonnansen == game_flag(game_type, 3)
        },
        TenhouMessage::Un { names, levels } => {
            &&& new == (GameState { players: new.players, ..old })
            &&& forall|i: int|
                0 <= i < 4 ==> #[trigger] new.players[i] == (PlayerState {
                    name: new.players[i].name,
                    level: new.players[i].level,
                    ..old.players[i]
                }) && new.players[i].name@ == names[i]@ && new.players[i].level@ == levels[i]@
        },
        _ => new == old,
    }
}

/// Value of a hexadecimal digit byte.
pub open spec fn hex_val(b: u8) -> Option<int> {
    if 48 <= b <= 57 {
        Some(b - 48)
    } else if 97 <= b <= 102 {
        Some(b - 87)
    } else if 65 <= b <= 70 {
        Some(b - 55)
    } else {
        None
    }
}

/// What `u8::from_str_radix(text, 16)` gives for the two-byte text `b1 b2`:
/// two hex digits, or '+' and one hex digit.
pub open spec fn hex_pair(b1: u8, b2: u8) -> Option<int> {
    if b1 == 43 {
        hex_val(b2)
    } else {
        match (hex_val(b1), hex_val(b2)) {
            (Some(x), Some(y)) => Some(16 * x + y),
            _ => None,
        }
    }
}

/// Decoding of `b[i..]`: "%XY" with a hex pair becomes that byte as a
/// character, '+' becomes a space, every other byte becomes the character
/// with that code.
pub open spec fn url_decode_from(b: Seq<u8>, i: int) -> Seq<char>
    decreases b.len() - i,
{
    if i >= b.len() || i < 0 {
        seq![]
    } else if b[i] == 37 && i + 2 < b.len() && hex_pair(b[i + 1], b[i + 2]) is Some {
        seq![((hex_pair(b[i + 1], b[i + 2])->0) as u8) as char] + url_decode_from(b, i + 3)
    } else if b[i] == 43 {
        seq![' '] + url_decode_from(b, i + 1)
    } else {
        seq![b[i] as char] + url_decode_from(b, i + 1)
    }
}

/// Decoding `b[i..]` never cuts the text inside a character: at each '%'
/// followed by two more bytes, the byte after those two does not continue a
/// multi-byte character (the decoder reads those two bytes as text).
pub open spec fn url_decode_safe(b: Seq<u8>, i: int) -> bool
    decreases b.len() - i,
{
    if i >= b.len() || i < 0 {
        true
    } else if b[i] == 37 && i + 2 < b.len() {
        &&& !(i + 3 < b.len() && 128 <= b[i + 3] < 192)
        &&& if hex_pair(b[i + 1], b[i + 2]) is Some {
            url_decode_safe(b, i + 3)
        } else {
            url_decode_safe(b, i + 1)
        }
    } else {
        url_decode_safe(b, i + 1)
    }
}

fn hex_val_of(b: u8) -> (r: Option<u8>)
    ensures
        r matches Some(v) ==> hex_val(b) == Some(v as int),
        r is None ==> hex_val(b) is None,
{
    if b >= 48 && b <= 57 {
        Some(b - 48)
    } else if b >= 97 && b <= 102 {
        Some(b - 87)
    } else if b >= 65 && b <= 70 {
        Some(b - 55)
    } else {
        None
    }
}

fn hex_pair_of(b1: u8, b2: u8) -> (r: Option<u8>)
    ensures
        r matches Some(v) ==> hex_pair(b1, b2) == Some(v as int),
        r is None ==> hex_pair(b1, b2) is None,
{
    if b1 == 43 {
        hex_val_of(b2)
    } else {
        match (hex_val_of(b1), hex_val_of(b2)) {
            (Some(x), Some(y)) => Some(16 * x + y),
            _ => None,
        }
    }
}

/// Whether `url_decode` can decode `s` (see `url_decode_safe`).
pub fn url_decodable(s: &str) -> (r: bool)
    ensures
        r == url_decode_safe(s.spec_bytes(), 0),
{
    let bytes = s.as_bytes();
    let ghost b = bytes@;
    let n = bytes.len();
    let mut i: usize = 0;
    while i < n
        invariant
            b == bytes@,
            b == s.spec_bytes(),
            n == b.len(),
            i <= n,
            url_decode_safe(b, 0) == url_decode_safe(b, i as int),
        decreases n - i,
    {
        if bytes[i] == 37 && n - i > 2 {
            if n - i > 3 && 128 <= bytes[i + 3] && bytes[i + 3] < 192 {
                assert(!url_decode_safe(b, i as int));
                return false;
            }
            if let Some(_) = hex_pair_of(bytes[i + 1], bytes[i + 2]) {
                i = i + 3;
            } else {
                i = i + 1;
            }
        } else {
            i = i + 1;
        }
    }
    assert(url_decode_safe(b, i as int));
    true
}

/// Simple URL decode (only handles %XX hex encoding and '+').
pub fn url_decode(s: &str) -> (r: String)
    requires
        url_decode_safe(s.spec_bytes(), 0),
    ensures
        r@ == url_decode_from(s.spec_bytes(), 0),
{
    let bytes = s.as_bytes();
    let ghost b = bytes@;
    let mut result = String::new();
    let mut i: usize = 0;
    while i < bytes.len()
        invariant
            b == bytes@,
            i <= b.len(),
            url_decode_safe(b, i as int),
            result@ + url_decode_from(b, i as int) == url_decode_from(b, 0),
        decreases b.len() - i,
    {
        if bytes[i] == 37 && bytes.len() - i > 2 {
            if let Some(hex) = hex_pair_of(bytes[i + 1], bytes[i + 2]) {
                push_char(&mut result, hex as char);
                i = i + 3;
                continue;
            }
        }
        if bytes[i] == 43 {
            push_char(&mut result, ' ');
        } else {
            push_char(&mut result, bytes[i] as char);
        }
        i = i + 1;
    }
    assert(result@ =~= url_decode_from(b, 0));
    result
}

/// The `i32` fields of an optional comma-separated text (none when absent).
pub open spec fn opt_csv_i32(o: Option<String>) -> Seq<i32> {
    match o {
        Some(s) => csv_i32(encode_utf8(s@)),
        None => seq![],
    }
}

/// The `u16` fields of an optional comma-separated text (none when absent).
pub open spec fn opt_csv_u16(o: Option<String>) -> Seq<u16> {
    match o {
        Some(s) => csv_u16(encode_utf8(s@)),
        None => seq![],
    }
}

/// An optional decimal `u8`, 0 when absent or not a `u8`.
pub open spec fn opt_u8(o: Option<String>) -> u8 {
    match o {
        Some(s) => match parse_in_range(encode_utf8(s@), false, 0, 255) {
            Some(v) => v as u8,
            None => 0,
        },
        None => 0,
    }
}

/// The decoded name of an optional URL-encoded name, or `current` when absent.
pub open spec fn decoded_name(o: Option<String>, current: Seq<char>) -> Seq<char> {
    match o {
        Some(n) => url_decode_from(encode_utf8(n@), 0),
        None => current,
    }
}

pub open spec fn name_safe(o: Option<String>) -> bool {
    match o {
        Some(n) => url_decode_safe(encode_utf8(n@), 0),
        None => true,
    }
}

fn name_decodable(o: &Option<String>) -> (r: bool)
    ensures
        r == name_safe(*o),
{
    match o {
        Some(n) => url_decodable(n.as_str()),
        None => true,
    }
}

/// What `update_json` requires: the bot's seat is a seat, and names decode
/// without cutting a character.
pub open spec fn update_json_ok(gs: GameState, msg: ServerMessage) -> bool {
    &&& gs.bot_seat < 4
    &&& match msg {
        ServerMessage::Un { n0, n1, n2, n3, .. } => name_safe(n0) && name_safe(n1) && name_safe(n2)
            && name_safe(n3),
        _ => true,
    }
}

/// The state after `update_json` with `msg`.
pub open spec fn update_json_post(old: GameState, new: GameState, msg: ServerMessage) -> bool {
    match msg {
        ServerMessage::Init { seed, ten, oya, hai } => init_post(
            old,
            new,
            opt_csv_i32(seed),
            opt_csv_i32(ten),
            opt_u8(oya),
            opt_csv_u16(hai),
            empty_kawa(),
            empty_melds(),
        ),
        ServerMessage::Un { n0, n1, n2, n3, .. } => {
            let names = seq![n0, n1, n2, n3];
            &&& new == (GameState { players: new.players, ..old })
            &&& forall|i: int|
                0 <= i < 4 ==> #[trigger] new.players[i] == (PlayerState {
                    name: new.players[i].name,
                    ..old.players[i]
                }) && new.players[i].name@ == decoded_name(names[i], old.players[i].name@)
        },
        ServerMessage::Go { game_type, .. } => match game_type {
            Some(gt) => match parse_in_range(encode_utf8(gt@), true, i32::MIN as int, i32::MAX as int) {
                Some(v) => {
                    &&& new == (GameState {
                        aka_ari: new.aka_ari,
                        open_tanyao: new.open_tanyao,
                        is_tonnansen: new.is_tonnansen,
                        ..old
                    })
                    &&& new.aka_ari == !game_flag(v as i32, 5)
                    &&& new.open_tanyao == !game_flag(v as i32, 4)
                    &&& new.is_tonnansen == game_flag(v as i32, 3)
                },
                None => new == old,
            },
            None => new == old,
        },
        ServerMessage::Dora { hai } => match hai {
            Some(h) => match parse_in_range(encode_utf8(h@), false, 0, 65535) {
                Some(t) => {
                    &&& new == (GameState { dora_indicators: new.dora_indicators, ..old })
                    &&& new.dora_indicators@ == old.dora_indicators@.push(t as u16)
                },
                None => new == old,
            },
            None => new == old,
        },
        _ => new == old,
    }
}

impl GameState {
    pub fn new(lobby: u8, game_type: u8) -> (r: Self)
        ensures
            spec_new_state(r, lobby, game_type),
    {
        let players: [PlayerState; 4] = [
            PlayerState::new(0, true),
            PlayerState::new(1, false),
            PlayerState::new(2, false),
            PlayerState::new(3, false),
        ];
        let r = GameState {
            players,
            bot_seat: 0,
            dealer_seat: 0,
            round: 0,
            honba: 0,
            reach_sticks: 0,
            dora_indicators: Vec::new(),
            aka_ari: true,
            open_tanyao: true,
            is_tonnansen: false,
            round_wind: 27,  // East
            tiles_left: 70,
            bot_riichi: false,
            last_drawn_tile: None,
            current_actor: None,
            game_active: false,
            lobby,
            game_type,
            is_searching: false,
            authenticated: false,
        };
        assert forall|i: int| 0 <= i < 4 implies #[trigger] r.players[i].seat == i by {}
        r
    }

    /// Get the bot player.
    pub fn bot(&self) -> (r: &PlayerState)
        requires
            self.bot_seat < 4,
        ensures
            *r == self.players[self.bot_seat as int],
    {
        &self.players[self.bot_seat as usize]
    }

    /// Get the mutable bot player.
    pub fn bot_mut(&mut self) -> (r: &mut PlayerState)
        requires
            old(self).bot_seat < 4,
        ensures
            *r == old(self).players[old(self).bot_seat as int],
            final(self).players@ == old(self).players@.update(old(self).bot_seat as int, *final(r)),
            *final(self) == (GameState { players: final(self).players, ..*old(self) }),
    {
        &mut self.players[self.bot_seat as usize]
    }

    /// Get an opponent by seat.
    pub fn opponent(&self, seat: u8) -> (r: &PlayerState)
        requires
            seat < 4,
        ensures
            *r == self.players[seat as int],
    {
        &self.players[seat as usize]
    }

    /// Get a player by seat.
    pub fn player(&self, seat: u8) -> (r: &PlayerState)
        requires
            seat < 4,
        ensures
            *r == self.players[seat as int],
    {
        &self.players[seat as usize]
    }

    /// Visible tile counts (tiles we know are not available to draw): the
    /// count of each tile type among `visible_tiles`.
    pub fn visible_counts(&self) -> (r: [i8; 34])
        requires
            self.bot_seat < 4,
            countable(visible_tiles(*self)),
        ensures
            ints(r@) == tile_counts(visible_tiles(*self)),
    {
        let ghost all = visible_tiles(*self);
        let mut counts: [i8; 34] = [0; 34];
        assert(ints(counts@) =~= tile_counts(Seq::<Tile136>::empty()));
        let bot = self.bot();
        let ghost hand = bot.hand_136@;
        let ghost mts = meld_tiles(bot.melds@);
        let ghost bd = bot.discards@;
        let ghost dora = self.dora_indicators@;
        let ghost opp = opponents_visible(*self, 4);
        assert(all =~= hand + mts + bd + dora + opp);
        // Bot's hand
        assert(all.take(hand.len() as int) =~= Seq::<Tile136>::empty() + hand);
        count_slice(&mut counts, bot.hand_136.as_slice(), Ghost(Seq::<Tile136>::empty()), Ghost(all));
        assert(Seq::<Tile136>::empty() + hand =~= hand);
        // Bot's melds
        assert(all.take((hand.len() + mts.len()) as int) =~= hand + mts);
        count_melds(&mut counts, &bot.melds, Ghost(hand), Ghost(all));
        // Bot's own discards
        assert(all.take((hand.len() + mts.len() + bd.len()) as int) =~= hand + mts + bd);
        count_slice(&mut counts, bot.discards.as_slice(), Ghost(hand + mts), Ghost(all));
        // Dora indicators (face up)
        assert(all.take((hand.len() + mts.len() + bd.len() + dora.len()) as int) =~= hand + mts + bd + dora);
        count_slice(&mut counts, self.dora_indicators.as_slice(), Ghost(hand + mts + bd), Ghost(all));
        let ghost base = hand + mts + bd + dora;
        // Opponent discards and melds
        let mut i: u8 = 0;
        while i < 4
            invariant
                countable(all),
                self.bot_seat < 4,
                all == visible_tiles(*self),
                opp == opponents_visible(*self, 4),
                all =~= base + opp,
                i <= 4,
                ints(counts@) == tile_counts(base + opponents_visible(*self, i as int)),
            decreases 4 - i,
        {
            proof {
                lemma_opponents_prefix(*self, i as int + 1, 4);
            }
            let ghost before = base + opponents_visible(*self, i as int);
            if i != self.bot_seat {
                let p = &self.players[i as usize];
                let ghost d = p.discards@;
                let ghost m = meld_tiles(p.melds@);
                assert(opponents_visible(*self, i + 1) =~= opponents_visible(*self, i as int) + (d + m));
                let ghost after = base + opponents_visible(*self, i + 1);
                assert(all.take(after.len() as int) =~= after);
                assert(all.take((before.len() + d.len()) as int) =~= before + d);
                count_slice(&mut counts, p.discards.as_slice(), Ghost(before), Ghost(all));
                assert(before + d + m =~= after);
                count_melds(&mut counts, &p.melds, Ghost(before + d), Ghost(all));
            } else {
                assert(opponents_visible(*self, i + 1) =~= opponents_visible(*self, i as int));
            }
            i = i + 1;
        }
        counts
    }

    /// Display for logging: see `state_text`.
    pub fn display(&self) -> (r: String)
        requires
            self.bot_seat < 4,
            self.round < 255,
        ensures
            r@ == state_text(*self),
    {
        let bot = self.bot();
        let mut r = String::new();
        push_str(&mut r, "Round: ");
        push_decimal(&mut r, (self.round + 1) as u64);
        push_str(&mut r, "局");
        push_decimal(&mut r, self.honba as u64);
        push_str(&mut r, "本場 | Dora: ");
        let dora = self.dora_tiles();
        let ghost head = r@;
        let mut i: usize = 0;
        while i < dora.len()
            invariant
                i <= dora@.len(),
                r@ == head + names_text(dora@.take(i as int)),
            decreases dora@.len() - i,
        {
            push_str(&mut r, tile34_display(dora[i]));
            assert(dora@.take(i + 1).drop_last() =~= dora@.take(i as int));
            i = i + 1;
        }
        assert(dora@.take(dora@.len() as int) =~= dora@);
        push_str(&mut r, " | Hand: ");
        let hand = tiles136_display(bot.hand_136.as_slice());
        push_str(&mut r, hand.as_str());
        push_str(&mut r, " | Discards: ");
        let discards = tiles136_display(bot.discards.as_slice());
        push_str(&mut r, discards.as_str());
        push_str(&mut r, " | Melds: ");
        let ghost head2 = r@;
        let mut j: usize = 0;
        while j < bot.melds.len()
            invariant
                j <= bot.melds@.len(),
                r@ == head2 + melds_text(bot.melds@.take(j as int)),
            decreases bot.melds@.len() - j,
        {
            if j > 0 {
                push_str(&mut r, ", ");
            }
            let m = bot.melds[j].display();
            push_str(&mut r, m.as_str());
            proof {
                reveal_strlit(", ");
                assert(bot.melds@.take(j + 1).drop_last() =~= bot.melds@.take(j as int));
                if j == 0 {
                    assert(bot.melds@.take(1)[0] == bot.melds@[0]);
                }
            }
            j = j + 1;
        }
        assert(bot.melds@.take(bot.melds@.len() as int) =~= bot.melds@);
        push_str(&mut r, " | Score: ");
        push_signed(&mut r, bot.score as i64);
        proof {
            reveal_strlit("Round: ");
            reveal_strlit("局");
            reveal_strlit("本場 | Dora: ");
            reveal_strlit(" | Hand: ");
            reveal_strlit(" | Discards: ");
            reveal_strlit(" | Melds: ");
            reveal_strlit(" | Score: ");
        }
        assert(r@ =~= state_text(*self));
        r
    }

    /// Get the dora tiles (the actual bonus tiles, not the indicators).
    pub fn dora_tiles(&self) -> (r: Vec<Tile34>)
        ensures
            r@ == types_of(self.dora_indicators@).map_values(|t: Tile34| spec_indicator_to_dora(t)),
    {
        let mut r: Vec<Tile34> = Vec::new();
        let mut i: usize = 0;
        while i < self.dora_indicators.len()
            invariant
                i <= self.dora_indicators@.len(),
                r@ == types_of(self.dora_indicators@.take(i as int)).map_values(
                    |t: Tile34| spec_indicator_to_dora(t),
                ),
            decreases self.dora_indicators@.len() - i,
        {
            r.push(indicator_to_dora(t136_to_t34(self.dora_indicators[i])));
            assert(types_of(self.dora_indicators@.take(i + 1)).map_values(|t: Tile34| spec_indicator_to_dora(t))
                =~= types_of(self.dora_indicators@.take(i as int)).map_values(
                |t: Tile34| spec_indicator_to_dora(t),
            ).push(spec_indicator_to_dora(spec_t136_to_t34(self.dora_indicators@[i as int]))));
            i = i + 1;
        }
        assert(self.dora_indicators@.take(self.dora_indicators@.len() as int) =~= self.dora_indicators@);
        r
    }

    /// Set the rule flags from the game-type bitmask, bit 0 being the least
    /// significant (bit 7 the most): bit 5 clear means red fives, bit 4 clear
    /// means open tanyao, bit 3 set means east-south.
    pub fn apply_game_type(&mut self, game_type: i32)
        ensures
            final(self).aka_ari == !game_flag(game_type, 5),
            final(self).open_tanyao == !game_flag(game_type, 4),
            final(self).is_tonnansen == game_flag(game_type, 3),
            *final(self) == (GameState {
                aka_ari: final(self).aka_ari,
                open_tanyao: final(self).open_tanyao,
                is_tonnansen: final(self).is_tonnansen,
                ..*old(self)
            }),
    {
        let u = as_bits(game_type);
        self.aka_ari = bit_of(u, 5) == 0;
        self.open_tanyao = bit_of(u, 4) == 0;
        self.is_tonnansen = bit_of(u, 3) == 1;
    }

    /// Round, honba, reach sticks and dora indicators from an INIT seed.
    fn apply_seed(&mut self, seed: &[i32])
        ensures
            *final(self) == (GameState {
                round: final(self).round,
                honba: final(self).honba,
                reach_sticks: final(self).reach_sticks,
                dora_indicators: final(self).dora_indicators,
                ..*old(self)
            }),
            final(self).round == (if seed@.len() >= 1 { seed@[0] as u8 } else { old(self).round }),
            final(self).honba == (if seed@.len() >= 2 { seed@[1] as u8 } else { old(self).honba }),
            final(self).reach_sticks == (if seed@.len() >= 3 { seed@[2] as u8 } else { old(self).reach_sticks }),
            final(self).dora_indicators@ == (if seed@.len() >= 4 {
                seed@.skip(3).map_values(|x: i32| x as u16)
            } else {
                old(self).dora_indicators@
            }),
    {
        // seed format: [round, honba, reach_sticks, dora_indicator, ...]
        if seed.len() >= 1 {
            self.round = seed[0] as u8;
        }
        if seed.len() >= 2 {
            self.honba = seed[1] as u8;
        }
        if seed.len() >= 3 {
            self.reach_sticks = seed[2] as u8;
        }
        if seed.len() >= 4 {
            let mut dora: Vec<Tile136> = Vec::new();
            let mut i: usize = 3;
            while i < seed.len()
                invariant
                    3 <= i <= seed@.len(),
                    dora@ == seed@.subrange(3, i as int).map_values(|x: i32| x as u16),
                decreases seed@.len() - i,
            {
                dora.push(seed[i] as Tile136);
                assert(seed@.subrange(3, i + 1).map_values(|x: i32| x as u16) =~= seed@.subrange(
                    3,
                    i as int,
                ).map_values(|x: i32| x as u16).push(seed@[i as int] as u16));
                i = i + 1;
            }
            assert(seed@.subrange(3, seed@.len() as int) =~= seed@.skip(3));
            self.dora_indicators = dora;
        }
    }

    /// The four scores, when `ten` has exactly four entries.
    fn apply_scores(&mut self, ten: &[i32])
        ensures
            *final(self) == (GameState { players: final(self).players, ..*old(self) }),
            forall|j: int|
                0 <= j < 4 ==> #[trigger] final(self).players[j] == (PlayerState {
                    score: if ten@.len() == 4 { ten@[j] } else { old(self).players[j].score },
                    ..old(self).players[j]
                }),
    {
        if ten.len() == 4 {
            let mut i: usize = 0;
            while i < 4
                invariant
                    i <= 4,
                    ten@.len() == 4,
                    forall|j: int|
                        0 <= j < i ==> self.players[j] == (PlayerState {
                            score: ten@[j],
                            ..old(self).players[j]
                        }),
                    forall|j: int| i <= j < 4 ==> self.players[j] == old(self).players[j],
                    *self == (GameState { players: self.players, ..*old(self) }),
                decreases 4 - i,
            {
                self.players[i].score = ten[i];
                i = i + 1;
            }
        }
    }

    /// Clears every player's hand, discards, melds and riichi flag.
    fn reset_players(&mut self)
        ensures
            *final(self) == (GameState { players: final(self).players, ..*old(self) }),
            forall|j: int|
                0 <= j < 4 ==> {
                    let p = #[trigger] final(self).players[j];
                    &&& p == (PlayerState {
                        hand_136: p.hand_136,
                        discards: p.discards,
                        melds: p.melds,
                        is_riichi: false,
                        ..old(self).players[j]
                    })
                    &&& p.hand_136@.len() == 0
                    &&& p.discards@.len() == 0
                    &&& p.melds@.len() == 0
                },
    {
        let mut i: usize = 0;
        while i < 4
            invariant
                i <= 4,
                *self == (GameState { players: self.players, ..*old(self) }),
                forall|j: int|
                    0 <= j < i ==> {
                        let p = #[trigger] self.players[j];
                        &&& p == (PlayerState {
                            hand_136: p.hand_136,
                            discards: p.discards,
                            melds: p.melds,
                            is_riichi: false,
                            ..old(self).players[j]
                        })
                        &&& p.hand_136@.len() == 0
                        &&& p.discards@.len() == 0
                        &&& p.melds@.len() == 0
                    },
                forall|j: int| i <= j < 4 ==> self.players[j] == old(self).players[j],
            decreases 4 - i,
        {
            self.players[i].hand_136.clear();
            self.players[i].discards.clear();
            self.players[i].melds.clear();
            self.players[i].is_riichi = false;
            i = i + 1;
        }
    }

    /// Update state from a Tenhou message.
    pub fn update(&mut self, msg: &TenhouMessage)
        requires
            update_ok(*old(self), *msg),
        ensures
            update_post(*old(self), *final(self), *msg),
    {
        match msg {
            TenhouMessage::Init { seed, ten, oya, hai, .. } => {
                self.apply_init(seed.as_slice(), ten.as_slice(), *oya, hai.as_slice());
            },
            TenhouMessage::Reinit { seed, ten, oya, hai, kawa, melds } => {
                self.apply_reinit(seed.as_slice(), ten.as_slice(), *oya, hai.as_slice(), kawa, melds);
            },
            TenhouMessage::Draw { who, tile } => {
                self.tiles_left = self.tiles_left.saturating_sub(1);
                if *who == self.bot_seat {
                    if let Some(t) = tile {
                        let bs = self.bot_seat as usize;
                        insert_tile(&mut self.players[bs].hand_136, *t);
                        self.last_drawn_tile = Some(*t);
                    }
                }
                self.current_actor = Some(*who);
            },
            TenhouMessage::Discard { who, tile, is_tsumogiri: _ } => {
                let w = *who as usize;
                if *who == self.bot_seat {
                    // Remove tile from bot's hand
                    let kept = remove_all(&self.players[w].hand_136, *tile);
                    self.players[w].hand_136 = kept;
                    self.players[w].discards.push(*tile);
                } else {
                    self.players[w].discards.push(*tile);
                }
                self.last_drawn_tile = None;
                self.current_actor = None;
            },
            TenhouMessage::Meld { who, meld, .. } => {
                let w = *who as usize;
                // Add meld to the caller; consumed tiles leave the hand later
                // through the discard or draw-then-discard flow.
                let m = copy_meld(meld);
                let ghost before = self.players[w as int].melds@;
                self.players[w].melds.push(m);
                assert(self.players[w as int].melds@.drop_last() =~= before);
                self.current_actor = Some(*who);
            },
            TenhouMessage::Reach { who, step } => {
                if *step == 1 {
                    self.players[*who as usize].is_riichi = true;
                    if *who == self.bot_seat {
                        self.bot_riichi = true;
                    }
                }
            },
            TenhouMessage::Dora { tile } => {
                self.dora_indicators.push(*tile);
            },
            TenhouMessage::Agari { .. } | TenhouMessage::Ryuukyoku { .. } => {
                self.game_active = false;
            },
            TenhouMessage::Go { game_type } => {
                self.game_active = true;
                self.apply_game_type(*game_type);
            },
            TenhouMessage::GameEnd { .. } => {
                self.game_active = false;
            },
            TenhouMessage::Un { names, levels } => {
                let mut i: usize = 0;
                while i < 4
                    invariant
                        i <= 4,
                        *self == (GameState { players: self.players, ..*old(self) }),
                        forall|j: int|
                            0 <= j < i ==> #[trigger] self.players[j] == (PlayerState {
                                name: self.players[j].name,
                                level: self.players[j].level,
                                ..old(self).players[j]
                            }) && self.players[j].name@ == names[j]@ && self.players[j].level@ == levels[j]@,
                        forall|j: int| i <= j < 4 ==> self.players[j] == old(self).players[j],
                    decreases 4 - i,
                {
                    self.players[i].name = names[i].clone();
                    self.players[i].level = levels[i].clone();
                    i = i + 1;
                }
            },
            _ => {},
        }
    }

    /// Whether `update_json` accepts `msg` in this state (see `update_json_ok`).
    pub fn can_update_json(&self, msg: &ServerMessage) -> (r: bool)
        ensures
            r == update_json_ok(*self, *msg),
    {
        if self.bot_seat >= 4 {
            return false;
        }
        match msg {
            ServerMessage::Un { n0, n1, n2, n3, .. } => name_decodable(n0) && name_decodable(n1)
                && name_decodable(n2) && name_decodable(n3),
            _ => true,
        }
    }

    /// Update state from a JSON protocol message.
    pub fn update_json(&mut self, msg: &ServerMessage)
        requires
            update_json_ok(*old(self), *msg),
        ensures
            update_json_post(*old(self), *final(self), *msg),
    {
        match msg {
            ServerMessage::Init { seed, ten, oya, hai } => {
                self.apply_init_json(seed, ten, oya, hai);
            },
            ServerMessage::Un { n0, n1, n2, n3, .. } => {
                self.apply_names(n0, n1, n2, n3);
            },
            ServerMessage::Go { game_type, .. } => {
                if let Some(gt) = game_type {
                    if let Some(gt_int) = parse_i32(gt.as_str()) {
                        self.apply_game_type(gt_int);
                    }
                }
            },
            ServerMessage::Dora { hai } => {
                if let Some(h) = hai {
                    if let Some(tile) = parse_u16(h.as_str()) {
                        self.dora_indicators.push(tile);
                    }
                }
            },
            _ => {},
        }
    }

    fn apply_init_json(
        &mut self,
        seed: &Option<String>,
        ten: &Option<String>,
        oya: &Option<String>,
        hai: &Option<String>,
    )
        requires
            old(self).bot_seat < 4,
        ensures
            init_post(
                *old(self),
                *final(self),
                opt_csv_i32(*seed),
                opt_csv_i32(*ten),
                opt_u8(*oya),
                opt_csv_u16(*hai),
                empty_kawa(),
                empty_melds(),
            ),
    {
        let seed_vals: Vec<i32> = match seed {
            Some(s) => parse_csv_i32(s.as_str()),
            None => Vec::new(),
        };
        let ten_vals: Vec<i32> = match ten {
            Some(s) => parse_csv_i32(s.as_str()),
            None => Vec::new(),
        };
        let oya_val: u8 = match oya {
            Some(s) => match parse_u8(s.as_str()) {
                Some(v) => v,
                None => 0,
            },
            None => 0,
        };
        let hai_vals: Vec<Tile136> = match hai {
            Some(s) => parse_csv_u16(s.as_str()),
            None => Vec::new(),
        };
        self.apply_init(seed_vals.as_slice(), ten_vals.as_slice(), oya_val, hai_vals.as_slice());
    }

    fn apply_names(
        &mut self,
        n0: &Option<String>,
        n1: &Option<String>,
        n2: &Option<String>,
        n3: &Option<String>,
    )
        requires
            name_safe(*n0) && name_safe(*n1) && name_safe(*n2) && name_safe(*n3),
        ensures
            *final(self) == (GameState { players: final(self).players, ..*old(self) }),
            forall|i: int|
                0 <= i < 4 ==> #[trigger] final(self).players[i] == (PlayerState {
                    name: final(self).players[i].name,
                    ..old(self).players[i]
                }) && final(self).players[i].name@ == decoded_name(
                    seq![*n0, *n1, *n2, *n3][i],
                    old(self).players[i].name@,
                ),
    {
        self.set_name(0, n0);
        self.set_name(1, n1);
        self.set_name(2, n2);
        self.set_name(3, n3);
        proof {
            let names = seq![*n0, *n1, *n2, *n3];
            assert(names[0] == *n0 && names[1] == *n1 && names[2] == *n2 && names[3] == *n3);
        }
    }

    /// Replace the name of one seat with the decoded name, when one came.
    fn set_name(&mut self, seat: usize, n: &Option<String>)
        requires
            seat < 4,
            name_safe(*n),
        ensures
            *final(self) == (GameState { players: final(self).players, ..*old(self) }),
            forall|i: int| 0 <= i < 4 && i != seat ==> #[trigger] final(self).players[i] == old(self).players[i],
            final(self).players[seat as int] == (PlayerState {
                name: final(self).players[seat as int].name,
                ..old(self).players[seat as int]
            }),
            final(self).players[seat as int].name@ == decoded_name(*n, old(self).players[seat as int].name@),
    {
        if let Some(name) = n {
            self.players[seat].name = url_decode(name.as_str());
        }
    }

    fn apply_reinit(
        &mut self,
        seed: &[i32],
        ten: &[i32],
        oya: u8,
        hai: &[Tile136],
        kawa: &[Vec<Tile136>; 4],
        melds_list: &[Vec<MeldInfo>; 4],
    )
        requires
            old(self).bot_seat < 4,
        ensures
            init_post(
                *old(self),
                *final(self),
                seed@,
                ten@,
                oya,
                hai@,
                seq![kawa[0]@, kawa[1]@, kawa[2]@, kawa[3]@],
                seq![melds_list[0]@, melds_list[1]@, melds_list[2]@, melds_list[3]@],
            ),
    {
        self.apply_init(seed, ten, oya, hai);
        let ghost mid = *self;
        let ghost kv = seq![kawa[0]@, kawa[1]@, kawa[2]@, kawa[3]@];
        let ghost mv = seq![melds_list[0]@, melds_list[1]@, melds_list[2]@, melds_list[3]@];
        let mut i: usize = 0;
        while i < 4
            invariant
                i <= 4,
                kv == seq![kawa[0]@, kawa[1]@, kawa[2]@, kawa[3]@],
                mv == seq![melds_list[0]@, melds_list[1]@, melds_list[2]@, melds_list[3]@],
                init_post(*old(self), mid, seed@, ten@, oya, hai@, empty_kawa(), empty_melds()),
                *self == (GameState { players: self.players, ..mid }),
                forall|j: int|
                    0 <= j < i ==> #[trigger] self.players[j] == (PlayerState {
                        discards: self.players[j].discards,
                        melds: self.players[j].melds,
                        ..mid.players[j]
                    }) && self.players[j].discards@ == kv[j] && self.players[j].melds@.len() == mv[j].len()
                        && (forall|q: int| 0 <= q < mv[j].len() ==> same_meld(#[trigger] self.players[j].melds@[q], mv[j][q].meld)),
                forall|j: int| i <= j < 4 ==> self.players[j] == mid.players[j],
            decreases 4 - i,
        {
            assert(kawa[i as int]@ == kv[i as int]);
            let ghost start_iter = self.players;
            self.players[i].discards = copy_tiles(&kawa[i]);
            assert(forall|j: int| 0 <= j < 4 && j != i ==> self.players[j] == start_iter[j]);
            // melds
            let list = &melds_list[i];
            assert(list@ == mv[i as int]);
            assert(empty_melds()[i as int] =~= Seq::<MeldInfo>::empty());
            assert(self.players[i as int].melds@.len() == 0);
            let ghost outer = self.players;
            let mut k: usize = 0;
            while k < list.len()
                invariant
                    i < 4,
                    kv == seq![kawa[0]@, kawa[1]@, kawa[2]@, kawa[3]@],
                    mv == seq![melds_list[0]@, melds_list[1]@, melds_list[2]@, melds_list[3]@],
                    k <= list@.len(),
                    list@ == mv[i as int],
                    *self == (GameState { players: self.players, ..mid }),
                    self.players[i as int] == (PlayerState {
                        discards: self.players[i as int].discards,
                        melds: self.players[i as int].melds,
                        ..mid.players[i as int]
                    }),
                    self.players[i as int].discards@ == kv[i as int],
                    self.players[i as int].melds@.len() == k,
                    forall|q: int| 0 <= q < k ==> same_meld(#[trigger] self.players[i as int].melds@[q], list@[q].meld),
                    forall|j: int| 0 <= j < 4 && j != i ==> self.players[j] == outer[j],
                decreases list@.len() - k,
            {
                let m = copy_meld(&list[k].meld);
                self.players[i].melds.push(m);
                k = k + 1;
            }
            assert(self.players[i as int].discards@ == kv[i as int]);
            assert(self.players[i as int].melds@.len() == mv[i as int].len());
            assert(forall|q: int| 0 <= q < mv[i as int].len() ==> same_meld(#[trigger] self.players[i as int].melds@[q], mv[i as int][q].meld));
            assert(forall|j: int| 0 <= j < 4 && j != i ==> self.players[j] == outer[j]);
            assert(forall|j: int| 0 <= j < 4 && j != i ==> outer[j] == start_iter[j]);
            assert forall|j: int| 0 <= j < i + 1 implies #[trigger] self.players[j] == (PlayerState {
                discards: self.players[j].discards,
                melds: self.players[j].melds,
                ..mid.players[j]
            }) && self.players[j].discards@ == kv[j] && self.players[j].melds@.len() == mv[j].len()
                && (forall|q: int| 0 <= q < mv[j].len() ==> same_meld(#[trigger] self.players[j].melds@[q], mv[j][q].meld)) by {
                if j < i {
                    assert(self.players[j] == start_iter[j]);
                }
            }
            i = i + 1;
        }
    }

    fn apply_init(&mut self, seed: &[i32], ten: &[i32], oya: u8, hai: &[Tile136])
        requires
            old(self).bot_seat < 4,
        ensures
            init_post(*old(self), *final(self), seed@, ten@, oya, hai@, empty_kawa(), empty_melds()),
    {
        self.apply_seed(seed);
        // Update round wind
        self.round_wind = match self.round / 4 {
            0 => 27,  // East
            1 => 28,  // South
            _ => 29,  // West (unlikely but possible)
        };
        // Scores
        self.apply_scores(ten);
        self.dealer_seat = oya;
        // Reset players for new round
        let ghost scored = self.players;
        self.reset_players();
        self.bot_riichi = false;
        // Set bot's initial hand
        let sorted_hand = sort_tiles(hai);
        let bs = self.bot_seat as usize;
        self.players[bs].hand_136 = sorted_hand;
        self.tiles_left = 70;
        self.last_drawn_tile = None;
        self.current_actor = Some(oya);
        proof {
            assert forall|i: int| 0 <= i < 4 implies round_start(
                old(self).players[i],
                #[trigger] self.players[i],
                if ten@.len() == 4 { ten@[i] } else { old(self).players[i].score },
                i == old(self).bot_seat,
                hai@,
                empty_kawa()[i],
                empty_melds()[i],
            ) by {
                assert(empty_kawa()[i] =~= Seq::<Tile136>::empty());
                assert(empty_melds()[i] =~= Seq::<MeldInfo>::empty());
                assert(self.players[i].discards@ =~= Seq::<Tile136>::empty());
            }
        }
    }
}

/// No message moves the bot's seat or changes the lobby or the game type.
pub proof fn lemma_update_keeps_table(old: GameState, new: GameState, msg: TenhouMessage)
    requires
        update_post(old, new, msg),
    ensures
        new.bot_seat == old.bot_seat,
        new.lobby == old.lobby,
        new.game_type == old.game_type,
{
}

/// No JSON message moves the bot's seat or changes the lobby or the game type.
pub proof fn lemma_update_json_keeps_table(old: GameState, new: GameState, msg: ServerMessage)
    requires
        update_json_post(old, new, msg),
    ensures
        new.bot_seat == old.bot_seat,
        new.lobby == old.lobby,
        new.game_type == old.game_type,
{
}

/// The dora of an indicator lies in the indicator's own group (the same
/// number suit, the winds, or the dragons), and no two indicators of the
/// set give the same dora: within each group the dora follows its indicator
/// in a cycle.
pub proof fn lemma_dora_cycles(a: Tile34, b: Tile34)
    requires
        a < 34,
        b < 34,
    ensures
        spec_indicator_to_dora(a) < 34,
        spec_tile34_suit(spec_indicator_to_dora(a)) == spec_tile34_suit(a),
        a != b ==> spec_indicator_to_dora(a) != spec_indicator_to_dora(b),
        27 <= a <= 30 ==> 27 <= spec_indicator_to_dora(a) <= 30,
        31 <= a ==> 31 <= spec_indicator_to_dora(a) <= 33,
{
}

} // verus!
