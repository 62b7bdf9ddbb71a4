//! Meld (fuuro) representation for called tile groups.

use vstd::prelude::*;
use crate::tile::{Tile136, Tile34, t136_to_t34, spec_t136_to_t34, tiles136_display, tiles34_text};
use crate::text::push_str;

verus! {

/// A called meld (open or closed).
#[derive(Debug, Clone)]
pub struct Meld {
    pub meld_type: MeldType,
    /// All tiles in this meld (in 136 format)
    pub tiles: Vec<Tile136>,
    /// Which tile was called from opponent
    pub called_tile: Tile136,
    /// Which opponent was it called from (0-3, where 0=self)
    pub from_whom: u8,
}

#[derive(Debug, Clone, Copy, PartialEq, Eq, Structural)]
pub enum MeldType {
    /// Open chi (sequence)
    Chi,
    /// Open pon (triplet)
    Pon,
    /// Open kan (daiminkan: called from an opponent's discard)
    Daiminkan,
    /// Closed kan (ankan)
    Ankan,
    /// Added kan (kakan: adding to an existing pon)
    Kakan,
}

/// Two melds with the same type, tiles, called tile and source.
pub open spec fn same_meld(a: Meld, b: Meld) -> bool {
    &&& a.meld_type == b.meld_type
    &&& a.tiles@ == b.tiles@
    &&& a.called_tile == b.called_tile
    &&& a.from_whom == b.from_whom
}

/// The tile types of a sequence of tile136 values.
pub open spec fn types_of(tiles: Seq<Tile136>) -> Seq<Tile34> {
    tiles.map_values(|t: Tile136| spec_t136_to_t34(t))
}

/// Number of hand tiles each kind of meld takes.
pub open spec fn spec_consumed_count(mt: MeldType) -> usize {
    match mt {
        MeldType::Chi => 2,
        MeldType::Pon => 2,
        MeldType::Daiminkan => 3,
        MeldType::Ankan => 4,
        MeldType::Kakan => 1,
    }
}

/// A field-by-field copy of a meld.
pub fn copy_meld(m: &Meld) -> (r: Meld)
    ensures
        same_meld(r, *m),
{
    let mut tiles: Vec<Tile136> = Vec::new();
    let mut i: usize = 0;
    while i < m.tiles.len()
        invariant
            i <= m.tiles@.len(),
            tiles@ == m.tiles@.take(i as int),
        decreases m.tiles@.len() - i,
    {
        tiles.push(m.tiles[i]);
        assert(m.tiles@.take(i + 1) =~= m.tiles@.take(i as int).push(m.tiles@[i as int]));
        i = i + 1;
    }
    assert(m.tiles@.take(m.tiles@.len() as int) =~= m.tiles@);
    Meld { meld_type: m.meld_type, tiles, called_tile: m.called_tile, from_whom: m.from_whom }
}

/// Tile types of a sequence of tiles, in order.
pub fn tile_types(tiles: &[Tile136]) -> (r: Vec<Tile34>)
    ensures
        r@ == types_of(tiles@),
{
    let mut r: Vec<Tile34> = Vec::new();
    let mut i: usize = 0;
    while i < tiles.len()
        invariant
            i <= tiles@.len(),
            r@ == types_of(tiles@.take(i as int)),
        decreases tiles@.len() - i,
    {
        r.push(t136_to_t34(tiles[i]));
        assert(types_of(tiles@.take(i + 1)) =~= types_of(tiles@.take(i as int)).push(
            spec_t136_to_t34(tiles@[i as int]),
        ));
        i = i + 1;
    }
    assert(tiles@.take(tiles@.len() as int) =~= tiles@);
    r
}

/// The Japanese name of a kind of meld.
pub open spec fn meld_type_name(mt: MeldType) -> Seq<char> {
    match mt {
        MeldType::Chi => "チー"@,
        MeldType::Pon => "ポン"@,
        MeldType::Daiminkan => "大明槓"@,
        MeldType::Ankan => "暗槓"@,
        MeldType::Kakan => "加槓"@,
    }
}

/// The display text of a meld: its kind, a space, its tiles.
pub open spec fn meld_text(m: Meld) -> Seq<char> {
    meld_type_name(m.meld_type) + " "@ + tiles34_text(types_of(m.tiles@))
}

impl Meld {
    /// Get all tiles as tile34.
    pub fn tiles34(&self) -> (r: Vec<Tile34>)
        ensures
            r@ == types_of(self.tiles@),
    {
        tile_types(self.tiles.as_slice())
    }

    /// Number of tiles consumed from hand.
    pub fn consumed_count(&self) -> (r: usize)
        ensures
            r == spec_consumed_count(self.meld_type),
    {
        match self.meld_type {
            MeldType::Chi => 2,
            MeldType::Pon => 2,
            MeldType::Daiminkan => 3,
            MeldType::Ankan => 4,
            MeldType::Kakan => 1,  // adds 1 to existing pon
        }
    }

    /// The tile type (34) of this meld's primary tile.
    pub fn tile_type(&self) -> (r: Tile34)
        requires
            self.tiles@.len() > 0,
        ensures
            r == spec_t136_to_t34(self.tiles@[0]),
    {
        t136_to_t34(self.tiles[0])
    }

    /// Display for logging: the kind of meld, then its tiles.
    pub fn display(&self) -> (r: String)
        ensures
            r@ == meld_text(*self),
    {
        let type_str = match self.meld_type {
            MeldType::Chi => "チー",
            MeldType::Pon => "ポン",
            MeldType::Daiminkan => "大明槓",
            MeldType::Ankan => "暗槓",
            MeldType::Kakan => "加槓",
        };
        let mut r = String::new();
        push_str(&mut r, type_str);
        push_str(&mut r, " ");
        let tiles = tiles136_display(self.tiles.as_slice());
        push_str(&mut r, tiles.as_str());
        r
    }
}

/// All tiles of a list of melds, meld by meld.
pub open spec fn meld_tiles(melds: Seq<Meld>) -> Seq<Tile136>
    decreases melds.len(),
{
    if melds.len() == 0 {
        seq![]
    } else {
        meld_tiles(melds.drop_last()) + melds.last().tiles@
    }
}

pub proof fn lemma_meld_tiles_take(melds: Seq<Meld>, j: int)
    requires
        0 <= j < melds.len(),
    ensures
        meld_tiles(melds.take(j + 1)) == meld_tiles(melds.take(j)) + melds[j].tiles@,
{
    assert(melds.take(j + 1).drop_last() =~= melds.take(j));
}

pub proof fn lemma_meld_tiles_prefix(melds: Seq<Meld>, j: int)
    requires
        0 <= j <= melds.len(),
    ensures
        meld_tiles(melds.take(j)).len() <= meld_tiles(melds).len(),
        meld_tiles(melds.take(j)) == meld_tiles(melds).take(meld_tiles(melds.take(j)).len() as int),
    decreases melds.len() - j,
{
    if j == melds.len() {
        assert(melds.take(j) =~= melds);
        assert(meld_tiles(melds).take(meld_tiles(melds).len() as int) =~= meld_tiles(melds));
    } else {
        lemma_meld_tiles_prefix(melds, j + 1);
        lemma_meld_tiles_take(melds, j);
        let a = meld_tiles(melds.take(j));
        let b = meld_tiles(melds.take(j + 1));
        assert(a =~= b.take(a.len() as int));
        assert(a =~= meld_tiles(melds).take(a.len() as int));
    }
}

} // verus!
