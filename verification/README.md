# tenhou_bot

A verified engine for a Japanese mahjong bot that plays on Tenhou.

`src/` is the library, proved with Verus:

- `tile`, `meld`: tiles in 136 and 34 form, melds, and their display text.
- `shanten`: shanten and ukeire by an exhaustive suit search, seven pairs
  and thirteen orphans; the best discard for shanten.
- `yaku`: the yaku the bot checks before declaring a win.
- `state`: the game as the bot sees it, following server messages.
- `protocol`, `json`, `text`: the JSON messages the bot sends, and the
  comma-separated values it reads.
- `ai`, `tactics`: the strategy interface and the rule-based tactics
  (riichi, calls, discard evaluations).
- `client`: what the bot answers to each server message.
- `sim`: a local four-player game for testing a strategy.
- `advisor`, `config`: advice requests and configuration records.

`app/` is the program around it: the command line, the WebSocket
connection, the configuration file, the advisor's JSON on stdin and stdout,
and the weighted ranking of discards, which uses floating point.
