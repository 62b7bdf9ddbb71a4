//! Yaku detection for determining if a hand can win.
//!
//! A winning hand must have at least one yaku. This module checks the
//! most common yaku to support basic gameplay.

use vstd::prelude::*;
use crate::tile::{Tile34, Tile136, spec_tile34_is_yaochuu, tile34_number};
use crate::shanten::{ints, tile_counts, countable, count_tile};
use crate::meld::{Meld, meld_tiles, lemma_meld_tiles_take, lemma_meld_tiles_prefix};

verus! {

/// Information about the hand needed for yaku checking.
pub struct WinContext {
    /// All tiles in the winning hand (hand + melds + winning tile, as tile34 counts)
    pub hand_tiles: [i8; 34],
    /// Whether the hand is closed (menzen): no chi/pon/daiminkan
    pub menzen: bool,
    /// Whether riichi was declared
    pub riichi: bool,
    /// Whether this is a tsumo win (vs ron)
    pub tsumo: bool,
    /// Round wind (tile34: 27=E, 28=S, 29=W)
    pub round_wind: Tile34,
    /// Seat wind (tile34: 27=E, 28=S, 29=W, 30=N)
    pub seat_wind: Tile34,
}

/// Result of yaku checking.
pub struct YakuResult {
    /// Whether the hand has at least one valid yaku
    pub can_win: bool,
    /// List of yaku names found
    pub yaku_list: Vec<&'static str>,
}

/// No tile present is a terminal or an honor.
pub open spec fn spec_is_tanyao(counts: Seq<int>) -> bool {
    forall|i: int| 0 <= i < 34 ==> !(counts[i] > 0 && spec_tile34_is_yaochuu(i as Tile34))
}

/// The value tile `w` (a wind or dragon) is held as a triplet or more.
pub open spec fn value_triplet(counts: Seq<int>, w: Tile34) -> bool {
    27 <= w <= 33 && counts[w as int] >= 3
}

pub open spec fn opt_name(present: bool, name: Seq<char>) -> Seq<Seq<char>> {
    if present {
        seq![name]
    } else {
        seq![]
    }
}

/// The yaku of a hand with tile counts `c`, as names listed in the byte order of
/// their UTF-8 text (the order `str` sorts in), each at most once: value-tile
/// triplets (dragons, round wind, seat wind), tanyao, riichi and menzen tsumo.
#[verifier::opaque]
pub open spec fn yaku_names(
    c: Seq<int>,
    menzen: bool,
    riichi: bool,
    tsumo: bool,
    round_wind: Tile34,
    seat_wind: Tile34,
) -> Seq<Seq<char>> {
    let round = value_triplet(c, round_wind);
    let seat = value_triplet(c, seat_wind);
    opt_name(c[33] >= 3, "中"@)
        + opt_name(round && round_wind != 27 && round_wind != 28, "場風"@)
        + opt_name(round && round_wind == 28, "場風(南)"@)
        + opt_name(round && round_wind == 27, "場風(東)"@)
        + opt_name(spec_is_tanyao(c), "断么九"@)
        + opt_name(c[32] >= 3, "發"@)
        + opt_name(c[31] >= 3, "白"@)
        + opt_name(riichi && menzen, "立直"@)
        + opt_name(seat && seat_wind != 27 && seat_wind != 28 && seat_wind != 29, "自風(北)"@)
        + opt_name(seat && seat_wind == 28, "自風(南)"@)
        + opt_name(seat && seat_wind == 27, "自風(東)"@)
        + opt_name(seat && seat_wind == 29, "自風(西)"@)
        + opt_name(menzen && tsumo, "門前清自摸和"@)
}

proof fn lemma_contains_concat(a: Seq<Seq<char>>, b: Seq<Seq<char>>, x: Seq<char>)
    ensures
        a.contains(x) ==> (a + b).contains(x),
        b.contains(x) ==> (a + b).contains(x),
{
    if a.contains(x) {
        let i = choose|i: int| 0 <= i < a.len() && a[i] == x;
        assert((a + b)[i] == x);
    }
    if b.contains(x) {
        let i = choose|i: int| 0 <= i < b.len() && b[i] == x;
        assert((a + b)[a.len() + i] == x);
    }
}

/// Part `i` of the yaku list, in the order `yaku_names` lists them.
pub open spec fn yaku_part(
    c: Seq<int>,
    menzen: bool,
    riichi: bool,
    tsumo: bool,
    round_wind: Tile34,
    seat_wind: Tile34,
    i: int,
) -> Seq<Seq<char>> {
    let round = value_triplet(c, round_wind);
    let seat = value_triplet(c, seat_wind);
    if i == 0 {
        opt_name(c[33] >= 3, "中"@)
    } else if i == 1 {
        opt_name(round && round_wind != 27 && round_wind != 28, "場風"@)
    } else if i == 2 {
        opt_name(round && round_wind == 28, "場風(南)"@)
    } else if i == 3 {
        opt_name(round && round_wind == 27, "場風(東)"@)
    } else if i == 4 {
        opt_name(spec_is_tanyao(c), "断么九"@)
    } else if i == 5 {
        opt_name(c[32] >= 3, "發"@)
    } else if i == 6 {
        opt_name(c[31] >= 3, "白"@)
    } else if i == 7 {
        opt_name(riichi && menzen, "立直"@)
    } else if i == 8 {
        opt_name(seat && seat_wind != 27 && seat_wind != 28 && seat_wind != 29, "自風(北)"@)
    } else if i == 9 {
        opt_name(seat && seat_wind == 28, "自風(南)"@)
    } else if i == 10 {
        opt_name(seat && seat_wind == 27, "自風(東)"@)
    } else if i == 11 {
        opt_name(seat && seat_wind == 29, "自風(西)"@)
    } else {
        opt_name(menzen && tsumo, "門前清自摸和"@)
    }
}

/// The first `n` parts of the yaku list, joined.
pub open spec fn yaku_prefix(
    c: Seq<int>,
    menzen: bool,
    riichi: bool,
    tsumo: bool,
    round_wind: Tile34,
    seat_wind: Tile34,
    n: int,
) -> Seq<Seq<char>>
    decreases n,
{
    if n <= 0 {
        seq![]
    } else {
        yaku_prefix(c, menzen, riichi, tsumo, round_wind, seat_wind, n - 1) + yaku_part(
            c,
            menzen,
            riichi,
            tsumo,
            round_wind,
            seat_wind,
            n - 1,
        )
    }
}

proof fn lemma_yaku_prefix_all(
    c: Seq<int>,
    menzen: bool,
    riichi: bool,
    tsumo: bool,
    round_wind: Tile34,
    seat_wind: Tile34,
)
    ensures
        yaku_names(c, menzen, riichi, tsumo, round_wind, seat_wind) == yaku_prefix(
            c,
            menzen,
            riichi,
            tsumo,
            round_wind,
            seat_wind,
            13,
        ),
{
    reveal(yaku_names);
    reveal_with_fuel(yaku_prefix, 14);
    assert(yaku_prefix(c, menzen, riichi, tsumo, round_wind, seat_wind, 1) =~= seq![] + yaku_part(
        c,
        menzen,
        riichi,
        tsumo,
        round_wind,
        seat_wind,
        0,
    ));
    assert(seq![] + yaku_part(c, menzen, riichi, tsumo, round_wind, seat_wind, 0) =~= yaku_part(
        c,
        menzen,
        riichi,
        tsumo,
        round_wind,
        seat_wind,
        0,
    ));
}

proof fn lemma_yaku_prefix_contains(
    c: Seq<int>,
    menzen: bool,
    riichi: bool,
    tsumo: bool,
    round_wind: Tile34,
    seat_wind: Tile34,
    i: int,
    n: int,
    x: Seq<char>,
)
    requires
        0 <= i < n,
        yaku_part(c, menzen, riichi, tsumo, round_wind, seat_wind, i).contains(x),
    ensures
        yaku_prefix(c, menzen, riichi, tsumo, round_wind, seat_wind, n).contains(x),
    decreases n,
{
    let pre = yaku_prefix(c, menzen, riichi, tsumo, round_wind, seat_wind, n - 1);
    let last = yaku_part(c, menzen, riichi, tsumo, round_wind, seat_wind, n - 1);
    if i < n - 1 {
        lemma_yaku_prefix_contains(c, menzen, riichi, tsumo, round_wind, seat_wind, i, n - 1, x);
    }
    lemma_contains_concat(pre, last, x);
}

/// A dragon triplet is a yaku whatever else the hand holds: three or more
/// 白 (type 31), 發 (32) or 中 (33) put that dragon's name among the yaku,
/// so such a hand can win.
pub proof fn lemma_dragon_triplet_is_yaku(
    c: Seq<int>,
    menzen: bool,
    riichi: bool,
    tsumo: bool,
    round_wind: Tile34,
    seat_wind: Tile34,
)
    ensures
        c[31] >= 3 ==> yaku_names(c, menzen, riichi, tsumo, round_wind, seat_wind).contains("白"@),
        c[32] >= 3 ==> yaku_names(c, menzen, riichi, tsumo, round_wind, seat_wind).contains("發"@),
        c[33] >= 3 ==> yaku_names(c, menzen, riichi, tsumo, round_wind, seat_wind).contains("中"@),
        (c[31] >= 3 || c[32] >= 3 || c[33] >= 3) ==> yaku_names(c, menzen, riichi, tsumo, round_wind, seat_wind).len()
            > 0,
{
    lemma_yaku_prefix_all(c, menzen, riichi, tsumo, round_wind, seat_wind);
    if c[33] >= 3 {
        assert(yaku_part(c, menzen, riichi, tsumo, round_wind, seat_wind, 0)[0] == "中"@);
        lemma_yaku_prefix_contains(c, menzen, riichi, tsumo, round_wind, seat_wind, 0, 13, "中"@);
    }
    if c[32] >= 3 {
        assert(yaku_part(c, menzen, riichi, tsumo, round_wind, seat_wind, 5)[0] == "發"@);
        lemma_yaku_prefix_contains(c, menzen, riichi, tsumo, round_wind, seat_wind, 5, 13, "發"@);
    }
    if c[31] >= 3 {
        assert(yaku_part(c, menzen, riichi, tsumo, round_wind, seat_wind, 6)[0] == "白"@);
        lemma_yaku_prefix_contains(c, menzen, riichi, tsumo, round_wind, seat_wind, 6, 13, "白"@);
    }
}

pub open spec fn spec_yaku_names(ctx: WinContext) -> Seq<Seq<char>> {
    yaku_names(ints(ctx.hand_tiles@), ctx.menzen, ctx.riichi, ctx.tsumo, ctx.round_wind, ctx.seat_wind)
}

pub open spec fn names_of(v: Seq<&'static str>) -> Seq<Seq<char>> {
    v.map_values(|s: &'static str| s@)
}

fn push_name(v: &mut Vec<&'static str>, present: bool, name: &'static str)
    ensures
        names_of(final(v)@) == names_of(old(v)@) + opt_name(present, name@),
{
    if present {
        v.push(name);
        assert(names_of(v@) =~= names_of(old(v)@) + opt_name(present, name@));
    } else {
        assert(names_of(v@) =~= names_of(old(v)@) + opt_name(present, name@));
    }
}

/// Check if a hand has any yaku. This is the main entry point.
///
/// The names come out in the byte order of their text, each once.
#[verifier::spinoff_prover]
#[verifier::rlimit(50)]
pub fn has_yaku(ctx: &WinContext) -> (r: YakuResult)
    ensures
        names_of(r.yaku_list@) == spec_yaku_names(*ctx),
        r.can_win == (spec_yaku_names(*ctx).len() > 0),
        ctx.hand_tiles[31] >= 3 ==> r.can_win && names_of(r.yaku_list@).contains("白"@),
        ctx.hand_tiles[32] >= 3 ==> r.can_win && names_of(r.yaku_list@).contains("發"@),
        ctx.hand_tiles[33] >= 3 ==> r.can_win && names_of(r.yaku_list@).contains("中"@),
{
    reveal(yaku_names);
    let c = &ctx.hand_tiles;
    let ghost ci = ints(c@);
    assert(ci[33] == c[33] && ci[32] == c[32] && ci[31] == c[31]);
    assert(27 <= ctx.round_wind <= 33 ==> ci[ctx.round_wind as int] == c[ctx.round_wind as int]);
    assert(27 <= ctx.seat_wind <= 33 ==> ci[ctx.seat_wind as int] == c[ctx.seat_wind as int]);
    let rw = ctx.round_wind;
    let sw = ctx.seat_wind;
    let round = 27 <= rw && rw <= 33 && c[rw as usize] >= 3;
    let seat = 27 <= sw && sw <= 33 && c[sw as usize] >= 3;
    let tanyao = is_tanyao(c);
    assert(round == value_triplet(ci, rw));
    assert(seat == value_triplet(ci, sw));
    let mut yaku: Vec<&'static str> = Vec::new();
    push_name(&mut yaku, c[33] >= 3, "中");
    assert(names_of(yaku@) =~= opt_name(c[33] >= 3, "中"@));
    push_name(&mut yaku, round && rw != 27 && rw != 28, "場風");
    push_name(&mut yaku, round && rw == 28, "場風(南)");
    push_name(&mut yaku, round && rw == 27, "場風(東)");
    push_name(&mut yaku, tanyao, "断么九");
    push_name(&mut yaku, c[32] >= 3, "發");
    push_name(&mut yaku, c[31] >= 3, "白");
    push_name(&mut yaku, ctx.riichi && ctx.menzen, "立直");
    push_name(&mut yaku, seat && sw != 27 && sw != 28 && sw != 29, "自風(北)");
    push_name(&mut yaku, seat && sw == 28, "自風(南)");
    push_name(&mut yaku, seat && sw == 27, "自風(東)");
    push_name(&mut yaku, seat && sw == 29, "自風(西)");
    push_name(&mut yaku, ctx.menzen && ctx.tsumo, "門前清自摸和");
    assert(names_of(yaku@).len() == yaku@.len());
    proof {
        lemma_dragon_triplet_is_yaku(ci, ctx.menzen, ctx.riichi, ctx.tsumo, rw, sw);
    }
    YakuResult { can_win: yaku.len() != 0, yaku_list: yaku }
}

/// Check if a hand is tanyao (no terminals or honors).
fn is_tanyao(counts: &[i8; 34]) -> (r: bool)
    ensures
        r == spec_is_tanyao(ints(counts@)),
{
    let mut i: usize = 0;
    while i < 34
        invariant
            i <= 34,
            forall|j: int| 0 <= j < i ==> !(ints(counts@)[j] > 0 && spec_tile34_is_yaochuu(j as Tile34)),
        decreases 34 - i,
    {
        assert(ints(counts@)[i as int] == counts[i as int]);
        if counts[i] > 0 && is_yaochuu(i as Tile34) {
            return false;
        }
        i = i + 1;
    }
    true
}

fn is_yaochuu(t: Tile34) -> (r: bool)
    requires
        t < 34,
    ensures
        r == spec_tile34_is_yaochuu(t),
{
    if t >= 27 {
        return true;
    }  // honors
    let n = tile34_number(t);
    n == 1 || n == 9
}

/// The tiles of a winning hand: the concealed tiles, the meld tiles, then the winning tile.
pub open spec fn winning_tiles(hand: Seq<Tile136>, melds: Seq<Meld>, win_tile: Tile136) -> Seq<Tile136> {
    hand + meld_tiles(melds) + seq![win_tile]
}

/// Convenience: check if the bot can win based on game state and winning tile.
/// Counts the hand, the meld tiles and the winning tile, and treats a riichi hand as closed.
pub fn can_bot_win(
    hand_136: &[Tile136],
    melds: &[Meld],
    win_tile: Tile136,
    menzen: bool,
    riichi: bool,
    tsumo: bool,
    round_wind: Tile34,
    seat_wind: Tile34,
) -> (r: YakuResult)
    requires
        countable(winning_tiles(hand_136@, melds@, win_tile)),
    ensures
        names_of(r.yaku_list@) == yaku_names(
            tile_counts(winning_tiles(hand_136@, melds@, win_tile)),
            menzen || riichi,
            riichi,
            tsumo,
            round_wind,
            seat_wind,
        ),
        r.can_win == (names_of(r.yaku_list@).len() > 0),
{
    let ghost all = winning_tiles(hand_136@, melds@, win_tile);
    let ghost mt = meld_tiles(melds@);
    let mut counts: [i8; 34] = [0; 34];
    let ghost mut seen: Seq<Tile136> = seq![];
    assert(ints(counts@) =~= tile_counts(seen));
    let mut i: usize = 0;
    while i < hand_136.len()
        invariant
            all == winning_tiles(hand_136@, melds@, win_tile),
            countable(all),
            i <= hand_136@.len(),
            seen == hand_136@.take(i as int),
            seen == all.take(seen.len() as int),
            ints(counts@) == tile_counts(seen),
        decreases hand_136@.len() - i,
    {
        assert(seen.push(hand_136@[i as int]) =~= all.take(i + 1));
        count_tile(&mut counts, hand_136[i], Ghost(seen), Ghost(all));
        proof {
            seen = seen.push(hand_136@[i as int]);
            assert(seen =~= hand_136@.take(i + 1));
            assert(seen =~= all.take(seen.len() as int));
        }
        i = i + 1;
    }
    assert(seen =~= hand_136@);
    let mut j: usize = 0;
    while j < melds.len()
        invariant
            all == winning_tiles(hand_136@, melds@, win_tile),
            mt == meld_tiles(melds@),
            countable(all),
            j <= melds@.len(),
            seen == hand_136@ + meld_tiles(melds@.take(j as int)),
            seen == all.take(seen.len() as int),
            ints(counts@) == tile_counts(seen),
        decreases melds@.len() - j,
    {
        let m = &melds[j];
        let mut k: usize = 0;
        proof {
            lemma_meld_tiles_take(melds@, j as int);
            lemma_meld_tiles_prefix(melds@, j + 1);
        }
        while k < m.tiles.len()
            invariant
                all == winning_tiles(hand_136@, melds@, win_tile),
                mt == meld_tiles(melds@),
                countable(all),
                j < melds@.len(),
                *m == melds@[j as int],
                k <= m.tiles@.len(),
                meld_tiles(melds@.take(j + 1)) == meld_tiles(melds@.take(j as int)) + m.tiles@,
                meld_tiles(melds@.take(j + 1)).len() <= mt.len(),
                meld_tiles(melds@.take(j + 1)) == mt.take(meld_tiles(melds@.take(j + 1)).len() as int),
                seen == hand_136@ + meld_tiles(melds@.take(j as int)) + m.tiles@.take(k as int),
                seen == all.take(seen.len() as int),
                ints(counts@) == tile_counts(seen),
            decreases m.tiles@.len() - k,
        {
            proof {
                let pre = meld_tiles(melds@.take(j as int));
                let p1 = meld_tiles(melds@.take(j + 1));
                assert(p1[pre.len() + k] == m.tiles@[k as int]);
                assert(mt[pre.len() + k] == m.tiles@[k as int]);
                assert(all[seen.len() as int] == m.tiles@[k as int]);
                assert(all.take(seen.len() as int + 1) =~= seen.push(m.tiles@[k as int]));
            }
            count_tile(&mut counts, m.tiles[k], Ghost(seen), Ghost(all));
            proof {
                seen = seen.push(m.tiles@[k as int]);
                assert(seen =~= hand_136@ + meld_tiles(melds@.take(j as int)) + m.tiles@.take(k + 1));
                assert(seen =~= all.take(seen.len() as int));
            }
            k = k + 1;
        }
        proof {
            assert(m.tiles@.take(k as int) =~= m.tiles@);
            assert(seen =~= hand_136@ + meld_tiles(melds@.take(j + 1)));
        }
        j = j + 1;
    }
    proof {
        assert(melds@.take(melds@.len() as int) =~= melds@);
        assert(all[seen.len() as int] == win_tile);
        assert(all.take(seen.len() as int + 1) =~= seen.push(win_tile));
    }
    // Add winning tile
    count_tile(&mut counts, win_tile, Ghost(seen), Ghost(all));
    proof {
        seen = seen.push(win_tile);
        assert(seen =~= all);
    }
    // If riichi, the hand is closed
    let ctx = WinContext {
        hand_tiles: counts,
        menzen: menzen || riichi,
        riichi,
        tsumo,
        round_wind,
        seat_wind,
    };
    has_yaku(&ctx)
}

} // verus!
