use tenhou_bot::meld::{Meld, MeldType};
use tenhou_bot::tile::Tile34;
use tenhou_bot::yaku::{can_bot_win, has_yaku, WinContext};

fn make_counts(tiles: &[Tile34]) -> [i8; 34] {
    let mut c = [0i8; 34];
    for &t in tiles {
        c[t as usize] += 1;
    }
    c
}

#[test]
fn test_riichi_yaku() {
    let ctx = WinContext {
        hand_tiles: make_counts(&[0, 1, 2, 12, 13, 14, 24, 25, 26, 27, 27, 27, 31, 31, 3]),
        menzen: true,
        riichi: true,
        tsumo: true,
        round_wind: 27,
        seat_wind: 28,
    };
    let r = has_yaku(&ctx);
    assert!(r.can_win);
    assert!(r.yaku_list.contains(&"立直"));
}

#[test]
fn test_menzen_tsumo() {
    let ctx = WinContext {
        hand_tiles: make_counts(&[0, 1, 2, 12, 13, 14, 24, 25, 26, 27, 27, 27, 31, 31, 3]),
        menzen: true,
        riichi: false,
        tsumo: true,
        round_wind: 27,
        seat_wind: 28,
    };
    let r = has_yaku(&ctx);
    assert!(r.can_win);
    assert!(r.yaku_list.contains(&"門前清自摸和"));
}

#[test]
fn test_tanyao() {
    let ctx = WinContext {
        hand_tiles: make_counts(&[3, 4, 5, 12, 13, 14, 21, 22, 23, 3, 3, 3, 13, 13, 14]),
        menzen: false,
        riichi: false,
        tsumo: false,
        round_wind: 27,
        seat_wind: 28,
    };
    let r = has_yaku(&ctx);
    assert!(r.can_win);
    assert!(r.yaku_list.contains(&"断么九"));
}

#[test]
fn test_no_yaku() {
    // Open hand with no tanyao, no yakuhai, no riichi = can't win
    let ctx = WinContext {
        hand_tiles: make_counts(&[0, 1, 2, 12, 13, 14, 24, 25, 26, 27, 27, 31, 31, 0, 0, 0]),
        menzen: false,
        riichi: false,
        tsumo: false,
        round_wind: 28,
        seat_wind: 29,
    };
    let r = has_yaku(&ctx);
    assert!(!r.can_win);
}

#[test]
fn test_yakuhai_haku() {
    let ctx = WinContext {
        hand_tiles: make_counts(&[0, 1, 2, 12, 13, 14, 24, 25, 26, 31, 31, 31, 27, 27, 0]),
        menzen: false,
        riichi: false,
        tsumo: false,
        round_wind: 27,
        seat_wind: 28,
    };
    let r = has_yaku(&ctx);
    assert!(r.can_win);
    assert!(r.yaku_list.contains(&"白"));
}

#[test]
fn test_yaku_list_is_sorted_by_text() {
    // East round, East seat, riichi tsumo with an East triplet and a Chun triplet.
    let ctx = WinContext {
        hand_tiles: make_counts(&[0, 1, 2, 12, 13, 14, 27, 27, 27, 33, 33, 33, 31, 31]),
        menzen: true,
        riichi: true,
        tsumo: true,
        round_wind: 27,
        seat_wind: 27,
    };
    let r = has_yaku(&ctx);
    assert_eq!(r.yaku_list, vec!["中", "場風(東)", "立直", "自風(東)", "門前清自摸和"]);
    let mut sorted = r.yaku_list.clone();
    sorted.sort();
    assert_eq!(sorted, r.yaku_list);
}

#[test]
fn test_west_round_and_north_seat_names() {
    let ctx = WinContext {
        hand_tiles: make_counts(&[29, 29, 29, 30, 30, 30]),
        menzen: false,
        riichi: false,
        tsumo: false,
        round_wind: 29,
        seat_wind: 30,
    };
    let r = has_yaku(&ctx);
    assert_eq!(r.yaku_list, vec!["場風", "自風(北)"]);
}

#[test]
fn test_can_bot_win_counts_melds_and_riichi_closes_hand() {
    let hand: Vec<u16> = vec![12, 16, 20, 48, 52, 56, 84, 88, 92, 20];
    let pon = Meld { meld_type: MeldType::Pon, tiles: vec![44, 45, 46], called_tile: 46, from_whom: 2 };
    // win on 5m (type 4): 456m 456p 456s 55m(+5m) 3p pon -> tanyao
    let r = can_bot_win(&hand, &[pon], 17, false, false, false, 27, 28);
    assert!(r.can_win);
    assert_eq!(r.yaku_list, vec!["断么九"]);
    let r2 = can_bot_win(&[0, 4, 8], &[], 12, false, true, true, 27, 28);
    assert_eq!(r2.yaku_list, vec!["立直", "門前清自摸和"]);
}
