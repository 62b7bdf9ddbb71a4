//! Tile types and conversions for Japanese mahjong.
//!
//! Two representations:
//! - `Tile34` (0-33): the 34 distinct tile types
//! - `Tile136` (0-135): all 136 tiles (4 copies of each type)

use vstd::prelude::*;
use crate::text::{decimal, push_char, push_str, push_decimal};
use crate::meld::{types_of, tile_types};

verus! {

/// A tile in the 34-type representation.
/// 0-8: 1m-9m, 9-17: 1p-9p, 18-26: 1s-9s, 27-33: E,S,W,N,Haku,Hatsu,Chun
pub type Tile34 = u8;

/// A tile in the 136-type representation (as used by the Tenhou protocol).
/// tile136 = tile34 * 4 + copy_index (0-3).
/// Red fives: 16 (5mr), 52 (5pr), 88 (5sr)
pub type Tile136 = u16;

/// The tile type of a tile136, as the low byte of `t / 4`.
pub open spec fn spec_t136_to_t34(t: Tile136) -> Tile34 {
    (t / 4) as u8
}

/// Convert Tile136 to Tile34.
#[verifier::when_used_as_spec(spec_t136_to_t34)]
pub fn t136_to_t34(t: Tile136) -> (r: Tile34)
    ensures
        r == spec_t136_to_t34(t),
        t < 1024 ==> r == t / 4,
{
    #[verifier::truncate]
    let r = (t / 4) as Tile34;
    r
}

/// Convert Tile34 to its base Tile136, the non-red version: copy 0 of the
/// type, except for the three fives, whose copy 0 is the red five and which
/// give copy 1 instead.
pub fn t34_to_t136(t: Tile34) -> (r: Tile136)
    ensures
        r == (if t == 4 || t == 13 || t == 22 { t * 4 + 1 } else { t * 4 }),
        spec_t136_to_t34(r) == t,
        !spec_is_red_five(r),
{
    let base = (t as Tile136) * 4;
    if t == 4 || t == 13 || t == 22 {
        base + 1
    } else {
        base
    }
}

pub open spec fn spec_is_red_five(t: Tile136) -> bool {
    t == 16 || t == 52 || t == 88
}

/// Check if a tile136 is a red five.
#[verifier::when_used_as_spec(spec_is_red_five)]
pub fn is_red_five(t: Tile136) -> (r: bool)
    ensures
        r == spec_is_red_five(t),
{
    t == 16 || t == 52 || t == 88
}

/// Check if a tile136 is an aka (red) tile.
pub fn is_aka(t: Tile136) -> (r: bool)
    ensures
        r == spec_is_red_five(t),
{
    is_red_five(t)
}

/// Get the non-red version of a tile136: a red five becomes the next copy of the
/// same five (which is not red); every other tile is returned unchanged.
pub fn deaka(t: Tile136) -> (r: Tile136)
    ensures
        r == (if spec_is_red_five(t) { (t + 1) as Tile136 } else { t }),
        spec_t136_to_t34(r) == spec_t136_to_t34(t),
        !spec_is_red_five(r),
{
    if is_red_five(t) {
        t + 1
    } else {
        t
    }
}

/// Suit of a tile34.
#[derive(Debug, Clone, Copy, PartialEq, Eq, Structural)]
pub enum Suit {
    Man,
    Pin,
    Sou,
    Honor,
}

pub open spec fn spec_tile34_suit(t: Tile34) -> Suit {
    if t <= 8 {
        Suit::Man
    } else if t <= 17 {
        Suit::Pin
    } else if t <= 26 {
        Suit::Sou
    } else {
        Suit::Honor
    }
}

/// Get the suit of a tile34 (every value of 27 and above counts as an honor).
#[verifier::when_used_as_spec(spec_tile34_suit)]
pub fn tile34_suit(t: Tile34) -> (r: Suit)
    ensures
        r == spec_tile34_suit(t),
{
    if t <= 8 {
        Suit::Man
    } else if t <= 17 {
        Suit::Pin
    } else if t <= 26 {
        Suit::Sou
    } else {
        Suit::Honor
    }
}

/// The number of a tile within its suit: the offset from the suit's first tile, plus one.
pub open spec fn spec_tile34_number(t: Tile34) -> u8 {
    if t <= 8 {
        (t + 1) as u8
    } else if t <= 17 {
        (t - 9 + 1) as u8
    } else if t <= 26 {
        (t - 18 + 1) as u8
    } else {
        (t - 27 + 1) as u8
    }
}

/// Get the number within its suit (1-9 for suits, 1-7 for honors).
#[verifier::when_used_as_spec(spec_tile34_number)]
pub fn tile34_number(t: Tile34) -> (r: u8)
    ensures
        r == spec_tile34_number(t),
        1 <= r,
        t <= 26 ==> r <= 9,
{
    match tile34_suit(t) {
        Suit::Man => t + 1,
        Suit::Pin => t - 9 + 1,
        Suit::Sou => t - 18 + 1,
        Suit::Honor => t - 27 + 1,
    }
}

/// A terminal is a 1 or 9 of one of the three number suits.
pub open spec fn spec_tile34_is_terminal(t: Tile34) -> bool {
    t == 0 || t == 8 || t == 9 || t == 17 || t == 18 || t == 26
}

/// Is this a terminal (1 or 9 in any suit)?
#[verifier::when_used_as_spec(spec_tile34_is_terminal)]
pub fn tile34_is_terminal(t: Tile34) -> (r: bool)
    ensures
        r == spec_tile34_is_terminal(t),
{
    let n = tile34_number(t);
    (n == 1 || n == 9) && tile34_suit(t) != Suit::Honor
}

pub open spec fn spec_tile34_is_honor(t: Tile34) -> bool {
    t >= 27
}

/// Is this an honor tile?
#[verifier::when_used_as_spec(spec_tile34_is_honor)]
pub fn tile34_is_honor(t: Tile34) -> (r: bool)
    ensures
        r == spec_tile34_is_honor(t),
{
    t >= 27
}

pub open spec fn spec_tile34_is_yaochuu(t: Tile34) -> bool {
    spec_tile34_is_terminal(t) || spec_tile34_is_honor(t)
}

/// Is this a terminal or honor?
#[verifier::when_used_as_spec(spec_tile34_is_yaochuu)]
pub fn tile34_is_yaochuu(t: Tile34) -> (r: bool)
    ensures
        r == spec_tile34_is_yaochuu(t),
{
    tile34_is_terminal(t) || tile34_is_honor(t)
}

/// Is this a valid tile?
pub fn tile34_is_valid(t: Tile34) -> (r: bool)
    ensures
        r == (t <= 33),
{
    t <= 33
}

/// The display name of a tile type ("??" for values above 33).
pub open spec fn tile34_name(t: Tile34) -> Seq<char> {
    if t == 0 {
        "1m"@
    } else     if t == 1 {
        "2m"@
    } else     if t == 2 {
        "3m"@
    } else     if t == 3 {
        "4m"@
    } else     if t == 4 {
        "5m"@
    } else     if t == 5 {
        "6m"@
    } else     if t == 6 {
        "7m"@
    } else     if t == 7 {
        "8m"@
    } else     if t == 8 {
        "9m"@
    } else     if t == 9 {
        "1p"@
    } else     if t == 10 {
        "2p"@
    } else     if t == 11 {
        "3p"@
    } else     if t == 12 {
        "4p"@
    } else     if t == 13 {
        "5p"@
    } else     if t == 14 {
        "6p"@
    } else     if t == 15 {
        "7p"@
    } else     if t == 16 {
        "8p"@
    } else     if t == 17 {
        "9p"@
    } else     if t == 18 {
        "1s"@
    } else     if t == 19 {
        "2s"@
    } else     if t == 20 {
        "3s"@
    } else     if t == 21 {
        "4s"@
    } else     if t == 22 {
        "5s"@
    } else     if t == 23 {
        "6s"@
    } else     if t == 24 {
        "7s"@
    } else     if t == 25 {
        "8s"@
    } else     if t == 26 {
        "9s"@
    } else     if t == 27 {
        "東"@
    } else     if t == 28 {
        "南"@
    } else     if t == 29 {
        "西"@
    } else     if t == 30 {
        "北"@
    } else     if t == 31 {
        "白"@
    } else     if t == 32 {
        "發"@
    } else     if t == 33 {
        "中"@
    } else {
        "??"@
    }
}

/// Display a single tile34 as a human-readable string.
pub fn tile34_display(t: Tile34) -> (r: &'static str)
    ensures
        r@ == tile34_name(t),
{
    match t {
        0 => "1m",
        1 => "2m",
        2 => "3m",
        3 => "4m",
        4 => "5m",
        5 => "6m",
        6 => "7m",
        7 => "8m",
        8 => "9m",
        9 => "1p",
        10 => "2p",
        11 => "3p",
        12 => "4p",
        13 => "5p",
        14 => "6p",
        15 => "7p",
        16 => "8p",
        17 => "9p",
        18 => "1s",
        19 => "2s",
        20 => "3s",
        21 => "4s",
        22 => "5s",
        23 => "6s",
        24 => "7s",
        25 => "8s",
        26 => "9s",
        27 => "東",
        28 => "南",
        29 => "西",
        30 => "北",
        31 => "白",
        32 => "發",
        33 => "中",
        _ => "??",
    }
}

/// `n` copies of `s`, one after another.
pub open spec fn repeat(s: Seq<char>, n: nat) -> Seq<char>
    decreases n,
{
    if n == 0 {
        seq![]
    } else {
        repeat(s, (n - 1) as nat) + s
    }
}

/// Number of occurrences of `v` in `tiles`.
pub open spec fn occurrences(tiles: Seq<Tile34>, v: int) -> nat
    decreases tiles.len(),
{
    if tiles.len() == 0 {
        0
    } else {
        occurrences(tiles.drop_last(), v) + (if tiles.last() == v { 1nat } else { 0nat })
    }
}

/// The numbers of the tiles with values in `lo..hi`, in ascending order of value.
pub open spec fn numbers_in(tiles: Seq<Tile34>, lo: int, hi: int) -> Seq<char>
    decreases hi - lo,
{
    if lo >= hi {
        seq![]
    } else {
        repeat(decimal(spec_tile34_number(lo as u8) as nat), occurrences(tiles, lo)) + numbers_in(
            tiles,
            lo + 1,
            hi,
        )
    }
}

/// The numbers of one suit followed by the suit letter, or nothing when the suit is absent.
pub open spec fn suit_group(tiles: Seq<Tile34>, lo: int, hi: int, letter: char) -> Seq<char> {
    let d = numbers_in(tiles, lo, hi);
    if d.len() == 0 {
        seq![]
    } else {
        d + seq![letter]
    }
}

/// Compact form of a list of tiles: per suit (man, pin, sou, honor) the sorted
/// numbers then the suit letter, as in "123m456p".
pub open spec fn tiles34_text(tiles: Seq<Tile34>) -> Seq<char> {
    suit_group(tiles, 0, 9, 'm') + suit_group(tiles, 9, 18, 'p') + suit_group(tiles, 18, 27, 's')
        + suit_group(tiles, 27, 256, 'z')
}

fn count_value(tiles: &[Tile34], v: Tile34) -> (n: usize)
    ensures
        n == occurrences(tiles@, v as int),
{
    let mut n: usize = 0;
    let mut i: usize = 0;
    while i < tiles.len()
        invariant
            i <= tiles@.len(),
            n == occurrences(tiles@.take(i as int), v as int),
            n <= i,
        decreases tiles@.len() - i,
    {
        assert(tiles@.take(i + 1).drop_last() =~= tiles@.take(i as int));
        if tiles[i] == v {
            n = n + 1;
        }
        i = i + 1;
    }
    assert(tiles@.take(tiles@.len() as int) =~= tiles@);
    n
}

proof fn lemma_decimal_nonempty(n: nat)
    ensures
        decimal(n).len() > 0,
    decreases n,
{
    if n >= 10 {
        lemma_decimal_nonempty(n / 10);
    }
}

proof fn lemma_repeat_empty(s: Seq<char>, n: nat)
    requires
        s.len() > 0,
    ensures
        (repeat(s, n).len() == 0) == (n == 0),
    decreases n,
{
    if n > 0 {
        lemma_repeat_empty(s, (n - 1) as nat);
    }
}

/// Appends the numbers of the tiles with values in `lo..hi` (see `numbers_in`).
fn push_numbers(out: &mut String, tiles: &[Tile34], lo: u16, hi: u16) -> (pushed: bool)
    requires
        lo <= hi <= 256,
    ensures
        final(out)@ == old(out)@ + numbers_in(tiles@, lo as int, hi as int),
        pushed == (numbers_in(tiles@, lo as int, hi as int).len() > 0),
    decreases hi - lo,
{
    if lo >= hi {
        assert(old(out)@ + numbers_in(tiles@, lo as int, hi as int) =~= old(out)@);
        return false;
    }
    let v = lo as u8;
    let n = count_value(tiles, v);
    let num = tile34_number(v);
    let ghost d = decimal(spec_tile34_number(v) as nat);
    let ghost start = out@;
    let mut k: usize = 0;
    while k < n
        invariant
            k <= n,
            out@ == start + repeat(d, k as nat),
            d == decimal(num as nat),
        decreases n - k,
    {
        push_decimal(out, num as u64);
        assert(start + repeat(d, (k + 1) as nat) =~= start + repeat(d, k as nat) + d);
        k = k + 1;
    }
    let rest = push_numbers(out, tiles, lo + 1, hi);
    assert(final(out)@ =~= old(out)@ + numbers_in(tiles@, lo as int, hi as int));
    proof {
        lemma_decimal_nonempty(spec_tile34_number(v) as nat);
        lemma_repeat_empty(d, n as nat);
    }
    n > 0 || rest
}

fn push_suit_group(out: &mut String, tiles: &[Tile34], lo: u16, hi: u16, letter: char)
    requires
        lo <= hi <= 256,
    ensures
        final(out)@ == old(out)@ + suit_group(tiles@, lo as int, hi as int, letter),
{
    let ghost start = out@;
    let pushed = push_numbers(out, tiles, lo, hi);
    if pushed {
        push_char(out, letter);
        assert(out@ =~= start + suit_group(tiles@, lo as int, hi as int, letter));
    } else {
        assert(out@ =~= start + suit_group(tiles@, lo as int, hi as int, letter));
    }
}

/// Display a list of tile34 as a sorted string (like "123m456p789s").
pub fn tiles34_display(tiles: &[Tile34]) -> (r: String)
    ensures
        r@ == tiles34_text(tiles@),
{
    let mut result = String::new();
    push_suit_group(&mut result, tiles, 0, 9, 'm');
    push_suit_group(&mut result, tiles, 9, 18, 'p');
    push_suit_group(&mut result, tiles, 18, 27, 's');
    push_suit_group(&mut result, tiles, 27, 256, 'z');
    assert(result@ =~= tiles34_text(tiles@));
    result
}

/// Display text of a single tile136: its type's name, in brackets when it is a red five.
pub open spec fn tile136_text(t: Tile136) -> Seq<char> {
    if spec_is_red_five(t) {
        seq!['['] + tile34_name(spec_t136_to_t34(t)) + seq![']']
    } else {
        tile34_name(spec_t136_to_t34(t))
    }
}

/// Display a single tile136.
pub fn tile136_display(t: Tile136) -> (r: String)
    ensures
        r@ == tile136_text(t),
{
    let t34 = t136_to_t34(t);
    let base = tile34_display(t34);
    let mut r = String::new();
    if is_red_five(t) {
        push_char(&mut r, '[');
        push_str(&mut r, base);
        push_char(&mut r, ']');
    } else {
        push_str(&mut r, base);
    }
    assert(r@ =~= tile136_text(t));
    r
}

/// Display a list of tile136 (compact form of their types).
pub fn tiles136_display(tiles: &[Tile136]) -> (r: String)
    ensures
        r@ == tiles34_text(types_of(tiles@)),
{
    let t34s = tile_types(tiles);
    tiles34_display(t34s.as_slice())
}

proof fn lemma_occurrences_count(s: Seq<Tile34>, v: int)
    requires
        0 <= v < 256,
    ensures
        occurrences(s, v) == s.to_multiset().count(v as Tile34),
    decreases s.len(),
{
    broadcast use vstd::seq_lib::group_to_multiset_ensures;

    if s.len() > 0 {
        lemma_occurrences_count(s.drop_last(), v);
        assert(s =~= s.drop_last().push(s.last()));
        vstd::seq_lib::to_multiset_build(s.drop_last(), s.last());
    } else {
        assert(s.to_multiset() =~= vstd::multiset::Multiset::<Tile34>::empty());
    }
}

proof fn lemma_numbers_in_same(a: Seq<Tile34>, b: Seq<Tile34>, lo: int, hi: int)
    requires
        a.to_multiset() == b.to_multiset(),
        0 <= lo,
        hi <= 256,
    ensures
        numbers_in(a, lo, hi) == numbers_in(b, lo, hi),
    decreases hi - lo,
{
    if lo < hi {
        lemma_occurrences_count(a, lo);
        lemma_occurrences_count(b, lo);
        lemma_numbers_in_same(a, b, lo + 1, hi);
    }
}

/// `tiles34_display` does not depend on the order of its input: two lists
/// holding the same tiles, each as often (one a permutation of the other),
/// give the same text (`tiles34_text`, which `tiles34_display` returns).
pub proof fn lemma_tiles34_display_any_order(a: Seq<Tile34>, b: Seq<Tile34>)
    requires
        a.to_multiset() == b.to_multiset(),
    ensures
        tiles34_text(a) == tiles34_text(b),
{
    lemma_numbers_in_same(a, b, 0, 9);
    lemma_numbers_in_same(a, b, 9, 18);
    lemma_numbers_in_same(a, b, 18, 27);
    lemma_numbers_in_same(a, b, 27, 256);
}

/// Each of the four copies of a tile type converts back to that type.
pub proof fn lemma_copies_share_type(t: Tile34, copy: int)
    requires
        0 <= copy < 4,
    ensures
        spec_t136_to_t34((t * 4 + copy) as Tile136) == t,
{
    assert((t * 4 + copy) / 4 == t as int);
    assert(((t * 4 + copy) as Tile136) as int == t * 4 + copy);
}

} // verus!
