use tenhou_bot::shanten::{
    best_discard_for_shanten, calc_shanten, calc_shanten_detailed, chiitoitsu_shanten,
    kokushi_shanten, normal_shanten, HandType,
};
use tenhou_bot::tile::{Tile136, Tile34};

fn t136s(t34s: &[Tile34]) -> Vec<Tile136> {
    t34s.iter().map(|&t| (t as Tile136) * 4).collect()
}

fn counts_of(tiles: &[Tile34]) -> [i8; 34] {
    let mut counts = [0i8; 34];
    for &t in tiles {
        counts[t as usize] += 1;
    }
    counts
}

#[test]
fn test_tenpai_ryanmen() {
    // 13 tiles: 123m 456p 789s 東東 45m (ryanmen tenpai)
    let hand = t136s(&[0, 1, 2, 12, 13, 14, 24, 25, 26, 27, 27, 3, 4]);
    assert_eq!(calc_shanten(&hand), 0);
}

#[test]
fn test_tenpai_tanki() {
    // 13 tiles: 123m 456p 789s 東東東 白 (tanki tenpai, wait 白)
    let hand = t136s(&[0, 1, 2, 12, 13, 14, 24, 25, 26, 27, 27, 27, 31]);
    assert_eq!(calc_shanten(&hand), 0);
}

#[test]
fn test_iishanten() {
    // 13 tiles: 123m 456p 789s 東 白 4m 6m
    let hand = t136s(&[0, 1, 2, 12, 13, 14, 24, 25, 26, 27, 31, 3, 5]);
    assert_eq!(calc_shanten(&hand), 1);
}

#[test]
fn test_complete_hand() {
    let counts = counts_of(&[0, 1, 2, 12, 13, 14, 24, 25, 26, 27, 27, 27, 31, 31]);
    assert!(normal_shanten(&counts) < 0);
}

#[test]
fn test_chiitoitsu_tenpai() {
    // 6 pairs (13 tiles) = tenpai
    let hand = t136s(&[0, 0, 9, 9, 18, 18, 27, 27, 31, 31, 3, 3, 5]);
    assert_eq!(calc_shanten(&hand), 0);
}

#[test]
fn test_kokushi_tenpai() {
    // 13 tiles, all 13 types = tenpai (waiting for pair)
    let hand = t136s(&[0, 8, 9, 17, 18, 26, 27, 28, 29, 30, 31, 32, 33]);
    assert_eq!(calc_shanten(&hand), 0);
}

#[test]
fn test_detailed_ukeire() {
    let hand = t136s(&[0, 1, 2, 12, 13, 14, 24, 25, 26, 27, 27, 3, 4]);
    let info = calc_shanten_detailed(&hand);
    assert_eq!(info.shanten, 0);
    assert!(info.ukeire_count > 0);
}

#[test]
fn test_complete_hand_is_minus_one() {
    let counts = counts_of(&[0, 1, 2, 12, 13, 14, 24, 25, 26, 27, 27, 27, 31, 31]);
    assert_eq!(normal_shanten(&counts), -1);
    let empty = [0i8; 34];
    assert_eq!(normal_shanten(&empty), 8);
}

#[test]
fn test_chiitoitsu_and_kokushi_formulas() {
    let counts = counts_of(&[0, 0, 9, 9, 18, 18, 27, 27, 31, 31, 3, 3, 5]);
    assert_eq!(chiitoitsu_shanten(&counts), 0);
    let seven = counts_of(&[0, 0, 9, 9, 18, 18, 27, 27, 31, 31, 3, 3, 5, 5]);
    assert_eq!(chiitoitsu_shanten(&seven), -1);
    let orphans = counts_of(&[0, 8, 9, 17, 18, 26, 27, 28, 29, 30, 31, 32, 33, 33]);
    assert_eq!(kokushi_shanten(&orphans), -1);
    assert_eq!(kokushi_shanten(&[0i8; 34]), 13);
}

#[test]
fn test_detailed_ryanmen_counts_both_sides() {
    // 45m waits on 3m (3 left) and 6m (4 left); a third East would leave four
    // sets and a partial set with no pair, which is not complete
    let hand = t136s(&[0, 1, 2, 12, 13, 14, 24, 25, 26, 27, 27, 3, 4]);
    let info = calc_shanten_detailed(&hand);
    assert_eq!(info.hand_type, HandType::Normal);
    assert_eq!(info.ukeire_count, 7);
    assert!(info.is_tenpai());
}

#[test]
fn test_detailed_prefers_seven_pairs() {
    let hand = t136s(&[0, 0, 4, 4, 9, 9, 13, 13, 22, 22, 27, 29, 31]);
    let info = calc_shanten_detailed(&hand);
    assert_eq!(info.hand_type, HandType::Chiitoitsu);
    assert_eq!(info.shanten, 1);
}

#[test]
fn test_best_discard() {
    assert!(best_discard_for_shanten(&[]).is_none());
    // 123m 456p 789s 東東 45m + isolated 白: discard 白
    let hand = t136s(&[0, 1, 2, 12, 13, 14, 24, 25, 26, 27, 27, 3, 4, 31]);
    let (tile, shanten, ukeire) = best_discard_for_shanten(&hand).unwrap();
    assert_eq!(tile, 31 * 4);
    assert_eq!(shanten, 0);
    assert_eq!(ukeire, 7);
}

#[test]
fn shanten_never_below_complete() {
    // Fourteen-tile hands: complete ones reach -1, none goes lower.
    let hands: [[Tile34; 14]; 4] = [
        [0, 1, 2, 3, 4, 5, 6, 7, 8, 9, 10, 11, 27, 27],
        [0, 0, 0, 1, 1, 1, 2, 2, 2, 3, 3, 3, 4, 4],
        [0, 0, 9, 9, 18, 18, 27, 27, 28, 28, 31, 31, 33, 33],
        [0, 8, 9, 17, 18, 26, 27, 28, 29, 30, 31, 32, 33, 33],
    ];
    for h in hands.iter() {
        assert_eq!(calc_shanten(&t136s(h)), -1);
    }
    let scattered = t136s(&[0, 4, 9, 13, 18, 22, 27, 28, 29, 30, 31, 32, 33, 8]);
    assert!(calc_shanten(&scattered) >= -1);
}

#[test]
fn thirteen_tiles_are_at_best_tenpai() {
    // Thirteen-tile hands one tile short of complete: tenpai (0), never lower.
    let hands: [[Tile34; 13]; 3] = [
        [0, 1, 2, 3, 4, 5, 6, 7, 8, 9, 10, 11, 27],
        [0, 0, 9, 9, 18, 18, 27, 27, 28, 28, 31, 31, 33],
        [0, 8, 9, 17, 18, 26, 27, 28, 29, 30, 31, 32, 33],
    ];
    for h in hands.iter() {
        assert_eq!(calc_shanten(&t136s(h)), 0);
    }
}

#[test]
fn partial_sets_beyond_four_do_not_count() {
    // 123m 45m 456p 789s 東東東: four sets and a partial set, no pair: tenpai
    let c = counts_of(&[0, 1, 2, 3, 4, 12, 13, 14, 24, 25, 26, 27, 27, 27]);
    assert_eq!(normal_shanten(&c), 0);
    // 123m 45m 456p 78p 789s: three sets and two partial sets, no pair
    assert_eq!(calc_shanten(&[0, 4, 8, 12, 16, 48, 52, 56, 60, 64, 96, 100, 104]), 1);
}
