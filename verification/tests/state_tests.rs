use tenhou_bot::meld::{Meld, MeldType};
use tenhou_bot::protocol::{ServerMessage, TenhouMessage};
use tenhou_bot::state::{indicator_to_dora, is_safe_tile, url_decode, url_decodable, GameState, PlayerState};

#[test]
fn test_indicator_to_dora() {
    assert_eq!(indicator_to_dora(0), 1); // 1m → 2m
    assert_eq!(indicator_to_dora(8), 0); // 9m → 1m
    assert_eq!(indicator_to_dora(27), 28); // 東 → 南
    assert_eq!(indicator_to_dora(33), 31); // 中 → 白
}

#[test]
fn test_game_state_init() {
    let mut gs = GameState::new(0, 0);
    gs.update(&TenhouMessage::Init {
        seed: vec![0, 0, 0, 1, 2],
        ten: vec![25000, 25000, 25000, 25000],
        oya: 0,
        hai: vec![0, 4, 8, 12, 16, 20, 24, 28, 32, 36, 40, 44, 48],
        aka: true,
    });
    assert_eq!(gs.bot().hand_136.len(), 13);
    assert_eq!(gs.dealer_seat, 0);
    assert_eq!(gs.dora_indicators.len(), 2);
}

#[test]
fn indicator_cycles_within_groups() {
    // Every suit cycles back to its first tile after nine steps, winds after
    // four, dragons after three.
    for start in [0u8, 9, 18] {
        let mut t = start;
        for _ in 0..9 {
            t = indicator_to_dora(t);
            assert!(t >= start && t < start + 9);
        }
        assert_eq!(t, start);
    }
    let mut w = 27u8;
    for _ in 0..4 {
        w = indicator_to_dora(w);
    }
    assert_eq!(w, 27);
    let mut d = 31u8;
    for _ in 0..3 {
        d = indicator_to_dora(d);
    }
    assert_eq!(d, 31);
    assert_eq!(indicator_to_dora(40), 40);
}

#[test]
fn new_state_defaults() {
    let gs = GameState::new(2, 9);
    assert_eq!(gs.players[0].name, "Player0");
    assert_eq!(gs.players[3].name, "Player3");
    assert!(gs.players[0].is_bot && !gs.players[1].is_bot);
    assert_eq!(gs.players[2].score, 25000);
    assert_eq!(gs.round_wind, 27);
    assert_eq!(gs.tiles_left, 70);
    assert_eq!(gs.lobby, 2);
    assert_eq!(gs.game_type, 9);
}

#[test]
fn init_sets_scores_wind_and_sorted_hand() {
    let mut gs = GameState::new(0, 0);
    gs.update(&TenhouMessage::Init {
        seed: vec![5, 1, 0, 7],
        ten: vec![240, 250, 260, 250],
        oya: 1,
        hai: vec![48, 4, 0],
        aka: true,
    });
    assert_eq!(gs.round, 5);
    assert_eq!(gs.honba, 1);
    assert_eq!(gs.round_wind, 28); // South
    assert_eq!(gs.dora_indicators, vec![7]);
    assert_eq!(gs.bot().hand_136, vec![0, 4, 48]);
    assert_eq!(gs.players[2].score, 260);
    assert_eq!(gs.current_actor, Some(1));
    assert_eq!(gs.tiles_left, 70);
}

#[test]
fn draw_and_discard_follow_the_bot() {
    let mut gs = GameState::new(0, 0);
    gs.update(&TenhouMessage::Init { seed: vec![0], ten: vec![], oya: 0, hai: vec![8, 4, 4], aka: true });
    gs.update(&TenhouMessage::Draw { who: 0, tile: Some(100) });
    assert_eq!(gs.bot().hand_136, vec![4, 4, 8, 100]);
    assert_eq!(gs.last_drawn_tile, Some(100));
    assert_eq!(gs.tiles_left, 69);
    gs.update(&TenhouMessage::Discard { who: 0, tile: 4, is_tsumogiri: false });
    // Every copy of the discarded tile leaves the hand
    assert_eq!(gs.bot().hand_136, vec![8, 100]);
    assert_eq!(gs.bot().discards, vec![4]);
    assert_eq!(gs.last_drawn_tile, None);
    gs.update(&TenhouMessage::Discard { who: 2, tile: 60, is_tsumogiri: true });
    assert_eq!(gs.players[2].discards, vec![60]);
    assert_eq!(gs.bot_seat, 0);
}

#[test]
fn reach_and_dora_and_end() {
    let mut gs = GameState::new(0, 0);
    gs.update(&TenhouMessage::Reach { who: 0, step: 1 });
    assert!(gs.bot_riichi && gs.players[0].is_riichi);
    gs.update(&TenhouMessage::Reach { who: 3, step: 2 });
    assert!(!gs.players[3].is_riichi);
    gs.update(&TenhouMessage::Dora { tile: 33 });
    assert_eq!(gs.dora_indicators, vec![33]);
    assert_eq!(gs.dora_tiles(), vec![0]); // 9m shows 1m
    gs.update(&TenhouMessage::Go { game_type: 8 });
    assert!(gs.game_active);
    assert!(gs.is_tonnansen);
    assert!(gs.aka_ari);
    gs.update(&TenhouMessage::GameEnd { scores: vec![] });
    assert!(!gs.game_active);
}

#[test]
fn game_type_bits() {
    let mut gs = GameState::new(0, 0);
    // bits 5 and 4 (0b0011_0000): no red fives, no open tanyao, tonpuusen
    gs.apply_game_type(48);
    assert!(!gs.aka_ari);
    assert!(!gs.open_tanyao);
    assert!(!gs.is_tonnansen);
    // bit 3 (0b0000_1000): tonnansen
    gs.apply_game_type(8);
    assert!(gs.aka_ari && gs.open_tanyao && gs.is_tonnansen);
    // bit 5 and bit 0 (0b0010_0001): no red fives only
    gs.apply_game_type(33);
    assert!(!gs.aka_ari && gs.open_tanyao && !gs.is_tonnansen);
    // bit 4 alone: no open tanyao
    gs.apply_game_type(16);
    assert!(gs.aka_ari && !gs.open_tanyao && !gs.is_tonnansen);
}

#[test]
fn json_updates() {
    let mut gs = GameState::new(0, 0);
    gs.update_json(&ServerMessage::Init {
        seed: Some("4,2,1,20".to_string()),
        ten: Some("250,250,250,250".to_string()),
        oya: Some("3".to_string()),
        hai: Some("12,8,4".to_string()),
    });
    assert_eq!(gs.round, 4);
    assert_eq!(gs.dealer_seat, 3);
    assert_eq!(gs.bot().hand_136, vec![4, 8, 12]);
    assert_eq!(gs.dora_indicators, vec![20]);
    gs.update_json(&ServerMessage::Dora { hai: Some("52".to_string()) });
    assert_eq!(gs.dora_indicators, vec![20, 52]);
    gs.update_json(&ServerMessage::Un {
        n0: Some("%41lice".to_string()),
        n1: None,
        n2: Some("b+b".to_string()),
        n3: None,
        dan: None,
        rate: None,
        sx: None,
    });
    assert_eq!(gs.players[0].name, "Alice");
    assert_eq!(gs.players[1].name, "Player1");
    assert_eq!(gs.players[2].name, "b b");
}

#[test]
fn url_decoding() {
    assert_eq!(url_decode("%E5"), "\u{e5}");
    assert_eq!(url_decode("a%2"), "a%2");
    assert_eq!(url_decode("%zz%41"), "%zzA");
    assert!(url_decodable("abc%41"));
    assert!(url_decodable("%41\u{e9}"));
    // Decoding would cut the character after "%4"
    assert!(!url_decodable("%4\u{e9}"));
}

#[test]
fn safe_tiles() {
    let mut opp = PlayerState::new(1, false);
    opp.discards = vec![20]; // 6m
    assert!(is_safe_tile(21, &opp, &[])); // genbutsu
    assert!(!is_safe_tile(8, &opp, &[])); // 3m: suji only counts in riichi
    opp.is_riichi = true;
    assert!(is_safe_tile(8, &opp, &[])); // 3m is suji of 6m
    assert!(!is_safe_tile(4, &opp, &[])); // 2m
    assert!(!is_safe_tile(120, &opp, &[])); // honor not discarded
}

#[test]
fn middle_suji_needs_both_sides() {
    let mut opp = PlayerState::new(1, false);
    opp.is_riichi = true;
    opp.discards = vec![4]; // 2m
    assert!(!is_safe_tile(17, &opp, &[])); // 5m: 8m not yet discarded
    assert!(!is_safe_tile(29, &opp, &[])); // 8m: 5m not discarded
    opp.discards.push(29); // 8m
    assert!(is_safe_tile(17, &opp, &[])); // 5m: both 2m and 8m
}

#[test]
fn visible_counts_and_display() {
    let mut gs = GameState::new(0, 0);
    gs.players[0].hand_136 = vec![0, 1, 40];
    gs.players[0].melds.push(Meld { meld_type: MeldType::Pon, tiles: vec![108, 109, 110], called_tile: 110, from_whom: 2 });
    gs.players[2].discards = vec![2, 41];
    gs.dora_indicators = vec![3];
    let v = gs.visible_counts();
    assert_eq!(v[0], 4);
    assert_eq!(v[10], 2);
    assert_eq!(v[27], 3);
    assert_eq!(v[33], 0);
    // The bot's own discards are not left to draw either.
    gs.players[0].discards = vec![132];
    assert_eq!(gs.visible_counts()[33], 1);
    gs.players[0].discards = vec![];
    gs.players[0].score = 24000;
    assert_eq!(
        gs.display(),
        "Round: 1局0本場 | Dora: 2m | Hand: 11m2p | Discards:  | Melds: ポン 111z | Score: 24000"
    );
}

#[test]
fn player_helpers() {
    let mut p = PlayerState::new(2, false);
    p.hand_136 = vec![0, 5, 135];
    assert_eq!(p.hand34(), vec![0, 1, 33]);
    assert_eq!(p.hand_size(), 3);
    assert_eq!(p.player_wind(0), 29);
    assert_eq!(p.player_wind(3), 30);
    p.melds.push(Meld { meld_type: MeldType::Chi, tiles: vec![0, 4, 8], called_tile: 8, from_whom: 3 });
    assert_eq!(p.meld_tiles34(), vec![0, 1, 2]);
}

#[test]
fn bot_accessors() {
    let mut gs = GameState::new(0, 0);
    gs.bot_mut().hand_136 = vec![9, 3];
    assert_eq!(gs.bot().hand_136, vec![9, 3]);
    assert_eq!(gs.players[0].hand_136, vec![9, 3]);
    assert_eq!(gs.opponent(2).seat, 2);
    assert_eq!(gs.player(1).name, "Player1");
}

#[test]
fn drawn_tile_goes_in_order() {
    let mut gs = GameState::new(0, 0);
    gs.update(&TenhouMessage::Init { seed: vec![0], ten: vec![], oya: 0, hai: vec![20, 5], aka: true });
    gs.update(&TenhouMessage::Draw { who: 0, tile: Some(0) });
    assert_eq!(gs.players[0].hand_136, vec![0, 5, 20]);
    gs.update(&TenhouMessage::Draw { who: 0, tile: Some(9) });
    assert_eq!(gs.players[0].hand_136, vec![0, 5, 9, 20]);
    gs.update(&TenhouMessage::Draw { who: 0, tile: Some(30) });
    assert_eq!(gs.players[0].hand_136, vec![0, 5, 9, 20, 30]);
}
