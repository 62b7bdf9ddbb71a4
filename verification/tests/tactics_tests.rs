use tenhou_bot::ai::DiscardEval;
use tenhou_bot::meld::{Meld, MeldType};
use tenhou_bot::shanten::{best_discard_for_shanten, calc_shanten_detailed};
use tenhou_bot::state::GameState;
use tenhou_bot::tactics::{suit_number_to_t34, TacticsAi};
use tenhou_bot::tile::Suit;

fn state_with_hand(hand: Vec<u16>) -> GameState {
    let mut gs = GameState::new(0, 0);
    gs.players[0].hand_136 = hand;
    gs
}

/// 123m 456p 789s 東東 45m 9p: tenpai on 3m-6m after discarding 9p.
fn tenpai_hand() -> Vec<u16> {
    vec![0, 4, 8, 48, 53, 56, 96, 100, 104, 108, 109, 12, 17, 68]
}

#[test]
fn test_tactics_default() {
    let ai = TacticsAi::default();
    assert!(ai.allow_melds);
    assert!(ai.allow_riichi);
    assert_eq!(ai.min_shanten_improve_for_meld, 2);
}

#[test]
fn riichi_when_tenpai_with_good_wait() {
    let ai = TacticsAi::default();
    let gs = state_with_hand(tenpai_hand());
    assert_eq!(ai.should_riichi(&gs), (true, Some(68)));
}

#[test]
fn no_riichi_cases() {
    let mut ai = TacticsAi::default();
    let mut gs = state_with_hand(tenpai_hand());
    ai.min_ukeire_for_riichi = 30; // far more than the wait offers
    assert_eq!(ai.should_riichi(&gs), (false, None));
    ai.min_ukeire_for_riichi = 4;
    gs.players[0].melds.push(Meld { meld_type: MeldType::Chi, tiles: vec![72, 76, 80], called_tile: 72, from_whom: 3 });
    assert_eq!(ai.should_riichi(&gs), (false, None));
    gs.players[0].melds[0].meld_type = MeldType::Ankan;
    assert_eq!(ai.should_riichi(&gs), (true, Some(68)));
    gs.bot_riichi = true;
    assert_eq!(ai.should_riichi(&gs), (false, None));
    // Not tenpai
    let far = state_with_hand(vec![0, 12, 24, 36, 48, 60, 72, 84, 96, 108, 112, 116, 120, 124]);
    assert_eq!(TacticsAi::default().should_riichi(&far), (false, None));
}

#[test]
fn fixed_answers() {
    let ai = TacticsAi::default();
    let gs = state_with_hand(tenpai_hand());
    assert_eq!(ai.should_call_kan(&gs, 0, true), (0, None));
    assert!(ai.should_tsumo(&gs));
    assert!(ai.should_ron(&gs, 5));
}

#[test]
fn kyushu_kyuhai_counts_terminals_and_honors() {
    let ai = TacticsAi::default();
    // 1m 9m 1p 9p 1s 9s 東 南 西 + 2m 3m 4m 5p: nine yaochuu
    let nine = state_with_hand(vec![0, 32, 36, 68, 72, 104, 108, 112, 116, 4, 8, 12, 53]);
    assert!(ai.should_kyushu_kyuhai(&nine));
    let eight = state_with_hand(vec![0, 32, 36, 68, 72, 104, 108, 112, 20, 4, 8, 12, 53]);
    assert!(!ai.should_kyushu_kyuhai(&eight));
}

#[test]
fn suit_numbers() {
    assert_eq!(suit_number_to_t34(Suit::Man, 1), Some(0));
    assert_eq!(suit_number_to_t34(Suit::Pin, 5), Some(13));
    assert_eq!(suit_number_to_t34(Suit::Sou, 9), Some(26));
    assert_eq!(suit_number_to_t34(Suit::Honor, 1), None);
    assert_eq!(suit_number_to_t34(Suit::Man, 0), None);
    assert_eq!(suit_number_to_t34(Suit::Man, 10), None);
}

#[test]
fn no_meld_when_off_or_in_riichi_or_not_worth() {
    let mut ai = TacticsAi::default();
    let mut gs = state_with_hand(vec![0, 1, 40, 44, 48, 60, 64, 80, 84, 108, 112, 116, 120]);
    // Pon on 1m would not gain two shanten
    assert!(ai.try_call_meld(&gs, 2, true).is_none());
    ai.min_shanten_improve_for_meld = -5;
    assert!(ai.try_call_meld(&gs, 2, true).is_some());
    gs.bot_riichi = true;
    assert!(ai.try_call_meld(&gs, 2, true).is_none());
    gs.bot_riichi = false;
    ai.allow_melds = false;
    assert!(ai.try_call_meld(&gs, 2, true).is_none());
}

#[test]
fn pon_takes_the_first_two_copies() {
    let mut ai = TacticsAi::default();
    ai.min_shanten_improve_for_meld = -5;
    let hand = vec![40, 0, 44, 1, 48, 3, 60, 64, 80, 84, 108, 112, 116];
    let gs = state_with_hand(hand);
    let d = ai.try_call_meld(&gs, 2, false).expect("pon");
    assert_eq!(d.meld_type, 1);
    assert_eq!(d.hand_tiles, vec![0, 1]);
    let after = vec![40, 44, 48, 3, 60, 64, 80, 84, 108, 112, 116, 2];
    assert_eq!(Some(d.discard_after), best_discard_for_shanten(&after).map(|b| b.0));
}

#[test]
fn chi_tries_patterns_in_order() {
    let mut ai = TacticsAi::default();
    ai.min_shanten_improve_for_meld = -5;
    // 1m 2m 4m 5m with a call on 3m: the pattern below-below (1m 2m) comes first
    let hand = vec![4, 0, 12, 17, 48, 60, 64, 80, 84, 108, 112, 116, 120];
    let gs = state_with_hand(hand);
    let d = ai.try_call_meld(&gs, 8, true).expect("chi");
    assert_eq!(d.meld_type, 3);
    assert_eq!(d.hand_tiles, vec![0, 4]);
    let after = vec![12, 17, 48, 60, 64, 80, 84, 108, 112, 116, 120, 8];
    assert_eq!(Some(d.discard_after), best_discard_for_shanten(&after).map(|b| b.0));
    // No chi on honors, nor when chi is not possible
    assert!(ai.try_call_meld(&gs, 124, true).is_none());
    assert!(ai.try_call_meld(&gs, 8, false).is_none());
}

#[test]
fn evaluations_of_short_and_riichi_hands() {
    let ai = TacticsAi::default();
    let one = state_with_hand(vec![77]);
    let e = ai.evaluate_all_discards(&one);
    assert_eq!(e.len(), 1);
    assert_eq!(e[0].tile, 77);
    assert_eq!(e[0].shanten, 0);
    let mut riichi = state_with_hand(tenpai_hand());
    riichi.bot_riichi = true;
    riichi.last_drawn_tile = Some(12);
    let e = ai.evaluate_all_discards(&riichi);
    assert_eq!(e.len(), 1);
    assert_eq!(e[0].tile, 12);
    riichi.last_drawn_tile = None;
    assert_eq!(ai.evaluate_all_discards(&riichi)[0].tile, 68);
}

#[test]
fn evaluations_of_each_tile() {
    let ai = TacticsAi::default();
    let hand = tenpai_hand();
    let mut gs = state_with_hand(hand.clone());
    gs.dora_indicators = vec![44]; // 3p shows 4p (48, 52..55)
    let evals = ai.evaluate_all_discards(&gs);
    assert_eq!(evals.len(), hand.len());
    for (i, e) in evals.iter().enumerate() {
        let mut rest = hand.clone();
        rest.remove(i);
        let info = calc_shanten_detailed(&rest);
        assert_eq!(e.tile, hand[i]);
        assert_eq!(e.shanten, info.shanten);
        assert_eq!(e.ukeire, info.ukeire_count);
        assert!(!e.is_dangerous);
        assert!(!e.defending);
    }
    // Discarding 9p keeps tenpai on 3m-6m (a third East would leave no pair)
    assert_eq!(evals[13], DiscardEval {
        tile: 68,
        shanten: 0,
        ukeire: 7,
        dora_count: 1,
        is_dangerous: false,
        breaks_only_pair: false,
        is_dora: false,
        defending: false,
    });
    // 東東 is the only pair; 4p is a dora
    assert!(evals[9].breaks_only_pair && evals[10].breaks_only_pair);
    assert!(!evals[0].breaks_only_pair);
    assert!(evals[3].is_dora);
    assert_eq!(evals[3].dora_count, 0);
}

#[test]
fn danger_against_riichi() {
    let ai = TacticsAi::default();
    let mut gs = state_with_hand(tenpai_hand());
    gs.players[2].is_riichi = true;
    gs.players[2].discards = vec![70]; // 9p is genbutsu
    let evals = ai.evaluate_all_discards(&gs);
    assert!(evals.iter().all(|e| e.defending));
    assert!(!evals[13].is_dangerous); // 9p
    assert!(evals[9].is_dangerous); // 東
    let mut relaxed = TacticsAi::default();
    relaxed.fold_against_riichi = false;
    assert!(relaxed.evaluate_all_discards(&gs).iter().all(|e| !e.is_dangerous && !e.defending));
}
