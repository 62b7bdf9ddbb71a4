use tenhou_bot::ai::{AiStrategy, MeldDecision};
use tenhou_bot::client::{classify_message, extract_t_values, parse_json_field, BotConfig, Reaction, TenhouBot};
use tenhou_bot::protocol::ServerMessage;
use tenhou_bot::state::GameState;

/// Discards the last tile of the bot's hand.
struct LastTile;

impl AiStrategy for LastTile {
    fn choose_discard(&self, state: &GameState) -> u16 {
        *state.players[0].hand_136.last().unwrap_or(&0)
    }
    fn should_riichi(&self, _state: &GameState) -> (bool, Option<u16>) {
        (false, None)
    }
    fn should_call_kan(&self, _state: &GameState, _drawn_tile: u16, _from_opponent: bool) -> (u8, Option<u16>) {
        (0, None)
    }
    fn try_call_meld(&self, _state: &GameState, _discard_tile: u16, _can_chi: bool) -> Option<MeldDecision> {
        None
    }
    fn should_tsumo(&self, _state: &GameState) -> bool {
        true
    }
    fn should_ron(&self, _state: &GameState, _discard_tile: u16) -> bool {
        true
    }
    fn should_kyushu_kyuhai(&self, _state: &GameState) -> bool {
        false
    }
}

fn other() -> ServerMessage {
    ServerMessage::Unknown
}

#[test]
fn json_fields() {
    assert_eq!(parse_json_field(r#"{"tag":"T","p":"78"}"#, "p"), Some("78".to_string()));
    assert_eq!(parse_json_field(r#"{"tag":"T","p":78}"#, "p"), None);
    assert_eq!(parse_json_field(r#"{"tag":"T"}"#, "p"), None);
    assert_eq!(parse_json_field(r#"{"a":"x","name":"été"}"#, "name"), Some("été".to_string()));
    assert_eq!(parse_json_field(r#"{"tag":"T""#, "tag"), Some("T".to_string()));
}

#[test]
fn t_values_quoted_then_numeric() {
    assert_eq!(extract_t_values(r#"{"tag":"T","t":"16","x":{"t":48}}"#), vec!["16", "48"]);
    assert_eq!(extract_t_values(r#"{"t":"8","t":"64","t":9}"#), vec!["8", "64", "9"]);
    assert_eq!(extract_t_values(r#"{"t":}"#), vec![""]);
    assert_eq!(extract_t_values(r#"{"tag":"D"}"#), Vec::<String>::new());
}

#[test]
fn reactions() {
    let init = ServerMessage::Init { seed: None, ten: None, oya: None, hai: None };
    assert_eq!(classify_message(r#"{"tag":"T","t":"16"}"#, &init), Reaction::Nothing);
    assert_eq!(classify_message(r#"{"tag":"Z"}"#, &ServerMessage::Z), Reaction::Nothing);
    let ryuukyoku = ServerMessage::Ryuukyoku { ten: None, hai0: None, hai1: None, hai2: None, hai3: None };
    assert_eq!(classify_message("", &ryuukyoku), Reaction::NextReady);
    assert_eq!(classify_message(r#"{"tag":"T","p":"12","t":"16"}"#, &other()), Reaction::Tsumo);
    assert_eq!(classify_message(r#"{"tag":"T","p":"12","t":48}"#, &other()), Reaction::Tsumo);
    assert_eq!(classify_message(r#"{"tag":"T","p":"12","t":"64"}"#, &other()), Reaction::KyushuKyuhai);
    assert_eq!(classify_message(r#"{"tag":"T","p":"12"}"#, &other()), Reaction::Discard);
    assert_eq!(classify_message(r#"{"tag":"D","p":"12","t":"8"}"#, &other()), Reaction::Ron);
    assert_eq!(classify_message(r#"{"tag":"d","p":"12","t":15}"#, &other()), Reaction::Ron);
    assert_eq!(classify_message(r#"{"tag":"D","p":"12","t":"14"}"#, &other()), Reaction::Pass);
    assert_eq!(classify_message(r#"{"tag":"REACH","step":"2"}"#, &other()), Reaction::Nothing);
}

#[test]
fn bot_session() {
    let mut config = BotConfig::default();
    assert_eq!(config.user_id, "NoName");
    assert_eq!(config.search_timeout, 120);
    config.lobby = 1;
    config.game_type = 9;
    let mut bot = TenhouBot::new(config, LastTile);
    assert_eq!(bot.helo(), r#"{"name":"NoName","sx":"M","tag":"HELO"}"#);
    let helo = ServerMessage::Helo { uname: Some("NoName".to_string()), ratingscale: None, auth: None, opt: None };
    assert!(!bot.on_login_message(&helo));
    assert!(bot.on_login_message(&ServerMessage::Ln));
    assert_eq!(bot.join_lobby(), r#"{"t":"1,9","tag":"JOIN"}"#);
    assert!(bot.state.is_searching);
    let out = bot.on_message(r#"{"tag":"REJOIN"}"#, &ServerMessage::Rejoin { t: None });
    assert_eq!(out, vec![r#"{"t":"1,9","tag":"JOIN"}"#.to_string()]);
    let go = ServerMessage::Go { game_type: Some("8".to_string()), lobby: None, gpid: None };
    let out = bot.on_message(r#"{"tag":"GO","type":"8"}"#, &go);
    assert_eq!(out, vec![r#"{"tag":"GOK"}"#.to_string(), r#"{"tag":"NEXTREADY"}"#.to_string()]);
    assert!(!bot.state.is_searching);
    assert!(bot.state.game_active);
    assert!(bot.state.is_tonnansen);
    let init = ServerMessage::Init {
        seed: Some("0,0,0,5".to_string()),
        ten: None,
        oya: Some("0".to_string()),
        hai: Some("40,4,12".to_string()),
    };
    assert!(bot.on_message(r#"{"tag":"INIT"}"#, &init).is_empty());
    assert_eq!(bot.state.players[0].hand_136, vec![4, 12, 40]);
    // A draw: the strategy picks the last tile of the hand
    let out = bot.on_message(r#"{"tag":"T","p":"9"}"#, &other());
    assert_eq!(out, vec![r#"{"p":40,"tag":"D"}"#.to_string()]);
    let out = bot.on_message(r#"{"tag":"T","t":"16"}"#, &other());
    assert_eq!(out, vec![r#"{"tag":"N","type":7}"#.to_string()]);
    let out = bot.on_message(r#"{"tag":"E","p":"9"}"#, &other());
    assert!(out.is_empty());
    let out = bot.on_message(r#"{"tag":"D","p":"9"}"#, &other());
    assert_eq!(out, vec![r#"{"tag":"N","type":0}"#.to_string()]);
    let agari = ServerMessage::Agari { who: None, from_who: None, machi: None, ten: None, hai: None, yaku: None };
    assert_eq!(bot.on_message(r#"{"tag":"AGARI"}"#, &agari), vec![r#"{"tag":"NEXTREADY"}"#.to_string()]);
    assert!(bot.on_message(r#"{"tag":"PROF"}"#, &ServerMessage::Prof).is_empty());
    assert!(!bot.state.game_active);
    assert_eq!(bot.state.bot_seat, 0);
}
