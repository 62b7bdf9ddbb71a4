use tenhou_bot::advisor::{advice_state, hand_after};
use tenhou_bot::meld::{Meld, MeldType};

#[test]
fn advice_state_from_request() {
    let gs = advice_state(vec![0, 4, 8], Some(vec![16]), Some(28), Some(true));
    assert_eq!(gs.players[0].hand_136, vec![0, 4, 8]);
    assert_eq!(gs.dora_indicators, vec![16]);
    assert_eq!(gs.round_wind, 28);
    assert!(gs.bot_riichi && gs.players[0].is_riichi);
    let plain = advice_state(vec![1], None, None, Some(false));
    assert!(plain.dora_indicators.is_empty());
    assert_eq!(plain.round_wind, 27);
    assert!(!plain.bot_riichi);
}

#[test]
fn one_copy_leaves_the_hand() {
    assert_eq!(hand_after(&vec![4, 8, 4, 12], 4), vec![8, 4, 12]);
    assert_eq!(hand_after(&vec![4, 8], 99), vec![4, 8]);
}

#[test]
fn meld_display() {
    let m = Meld { meld_type: MeldType::Chi, tiles: vec![0, 4, 8], called_tile: 8, from_whom: 3 };
    assert_eq!(m.display(), "チー 123m");
    assert_eq!(m.consumed_count(), 2);
    assert_eq!(m.tile_type(), 0);
    let k = Meld { meld_type: MeldType::Ankan, tiles: vec![124, 125, 126, 127], called_tile: 124, from_whom: 0 };
    assert_eq!(k.display(), "暗槓 5555z");
    assert_eq!(k.consumed_count(), 4);
    assert_eq!(k.tiles34(), vec![31, 31, 31, 31]);
}
