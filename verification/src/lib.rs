//! Engine for Japanese mahjong as played on Tenhou: tiles, shanten, yaku,
//! game-state tracking, rule-based tactics and the Tenhou message protocol.

pub mod tile;
pub mod shanten;
pub mod meld;
pub mod yaku;
pub mod text;
pub mod state;
pub mod json;
pub mod protocol;
pub mod ai;
pub mod tactics;
pub mod client;
pub mod sim;
pub mod config;
pub mod advisor;
