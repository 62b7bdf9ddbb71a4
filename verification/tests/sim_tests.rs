use tenhou_bot::ai::{AiStrategy, MeldDecision};
use tenhou_bot::shanten::best_discard_for_shanten;
use tenhou_bot::sim::{round_name, SimPlayer, SimpleAi, Simulator};
use tenhou_bot::state::GameState;

/// Plays the best tile for shanten and declares riichi when asked.
struct Efficient;

impl AiStrategy for Efficient {
    fn choose_discard(&self, state: &GameState) -> u16 {
        let hand = &state.players[0].hand_136;
        best_discard_for_shanten(hand).map(|b| b.0).unwrap_or(0)
    }
    fn should_riichi(&self, state: &GameState) -> (bool, Option<u16>) {
        (true, best_discard_for_shanten(&state.players[0].hand_136).map(|b| b.0))
    }
    fn should_call_kan(&self, _state: &GameState, _drawn_tile: u16, _from_opponent: bool) -> (u8, Option<u16>) {
        (0, None)
    }
    fn try_call_meld(&self, _state: &GameState, _discard_tile: u16, _can_chi: bool) -> Option<MeldDecision> {
        None
    }
    fn should_tsumo(&self, _state: &GameState) -> bool {
        true
    }
    fn should_ron(&self, _state: &GameState, _discard_tile: u16) -> bool {
        true
    }
    fn should_kyushu_kyuhai(&self, _state: &GameState) -> bool {
        false
    }
}

#[test]
fn round_names() {
    assert_eq!(round_name(0), "東1局");
    assert_eq!(round_name(3), "東4局");
    assert_eq!(round_name(4), "南1局");
    assert_eq!(round_name(7), "南4局");
}

#[test]
fn new_players() {
    let p = SimPlayer::new(2);
    assert_eq!(p.score, 25000);
    assert_eq!(p.seat, 2);
    assert!(p.hand.is_empty() && !p.riichi);
}

#[test]
fn simple_ai_discards() {
    let ai = SimpleAi::new();
    assert!(ai.fold_against_riichi);
    // In riichi the drawn (last) tile goes
    assert_eq!(ai.choose_discard(&[0, 4, 8, 100], true), 100);
    // Else the best tile for shanten: the isolated 9p
    let hand = [0u16, 4, 8, 48, 53, 56, 96, 100, 104, 108, 109, 12, 17, 68];
    assert_eq!(ai.choose_discard(&hand, false), 68);
    assert_eq!(ai.choose_discard(&hand, false), best_discard_for_shanten(&hand).unwrap().0);
}

#[test]
fn hanchan_keeps_the_points() {
    for _ in 0..3 {
        let mut sim = Simulator::new(Efficient);
        let scores = sim.run_hanchan();
        let total: i32 = scores.iter().sum();
        assert!((99_992..=100_016).contains(&total), "total {}", total);
        assert_eq!(sim.riichi_sticks, 0);
        assert_eq!(sim.log[0], "── 東1局局 0本場 ──");
        assert!(sim.log[1].starts_with("Dora: "));
        assert_eq!(sim.log[sim.log.len() - 5], "═══ Game Over ═══");
        assert_eq!(sim.log[sim.log.len() - 4], format!("P0: {} pts", scores[0]));
        assert_eq!(sim.log[sim.log.len() - 1], format!("P3: {} pts", scores[3]));
        for i in 0..4 {
            assert_eq!(scores[i], sim.players[i].score);
        }
    }
}

#[test]
fn walls_are_shuffled() {
    // The first dora indicator comes from a shuffled wall: five games do not
    // all show the same one.
    let mut first_dora = Vec::new();
    for _ in 0..5 {
        let mut sim = Simulator::new(Efficient);
        sim.run_hanchan();
        first_dora.push(sim.log[1].clone());
    }
    assert!(first_dora.iter().any(|d| d != &first_dora[0]));
}

/// Always names tile 0, whether held or not.
struct Stubborn;

impl AiStrategy for Stubborn {
    fn choose_discard(&self, _state: &GameState) -> u16 {
        0
    }
    fn should_riichi(&self, _state: &GameState) -> (bool, Option<u16>) {
        (false, None)
    }
    fn should_call_kan(&self, _state: &GameState, _t: u16, _o: bool) -> (u8, Option<u16>) {
        (0, None)
    }
    fn try_call_meld(&self, _state: &GameState, _t: u16, _c: bool) -> Option<MeldDecision> {
        None
    }
    fn should_tsumo(&self, _state: &GameState) -> bool {
        true
    }
    fn should_ron(&self, _state: &GameState, _t: u16) -> bool {
        true
    }
    fn should_kyushu_kyuhai(&self, _state: &GameState) -> bool {
        false
    }
}

fn check_last_round<A: AiStrategy>(sim: &Simulator<A>) {
    let mut all: Vec<u16> = Vec::new();
    for p in sim.players.iter() {
        assert!(p.hand.len() == 13 || p.hand.len() == 14);
        all.extend(p.hand.iter());
        all.extend(p.discards.iter());
    }
    all.extend(sim.wall[sim.wall_pos..].iter());
    all.sort();
    assert_eq!(all, (0..136).collect::<Vec<u16>>());
    assert!(sim.wall_pos <= 108);
}

#[test]
fn every_tile_in_one_place_after_a_round() {
    for _ in 0..3 {
        let mut sim = Simulator::new(Efficient);
        sim.run_hanchan();
        check_last_round(&sim);
        let mut sim = Simulator::new(Stubborn);
        sim.run_hanchan();
        check_last_round(&sim);
    }
}
