//! Tenhou JSON WebSocket protocol messages.
//!
//! The Tenhou HTML5 client uses JSON over WebSocket (wss://b-ww.mjv.jp/).
//! Messages are JSON objects with a "tag" field identifying the type.
//! Each WebSocket text frame is one complete JSON message.

use vstd::prelude::*;
use crate::meld::Meld;
use crate::json::{json_object, JsonValue, json_quoted, json_plain, lemma_json_plain, key_less, keys_increasing, members_text, object_text, value_text};
use crate::text::{decimal, push_str, push_decimal, push_char};
use vstd::slice::slice_subrange;
use vstd::string::StringSliceAdditionalSpecFns;

verus! {

// ── Incoming messages (from server) ──────────────────────────────────────
/// A parsed message from the Tenhou server (one variant per "tag").
pub enum ServerMessage {
    /// Authentication challenge response
    Helo { uname: Option<String>, ratingscale: Option<String>, auth: Option<String>, opt: Option<String> },
    /// Lobby info (after auth)
    Ln,
    /// Game found: game metadata ("type" on the wire)
    Go { game_type: Option<String>, lobby: Option<String>, gpid: Option<String> },
    /// Rejoin prompt
    Rejoin { t: Option<String> },
    /// Player names and levels
    Un {
        n0: Option<String>,
        n1: Option<String>,
        n2: Option<String>,
        n3: Option<String>,
        dan: Option<String>,
        rate: Option<String>,
        sx: Option<String>,
    },
    /// Game start
    Taikyoku { oya: Option<String>, log: Option<String> },
    /// Round initialization (deal)
    Init { seed: Option<String>, ten: Option<String>, oya: Option<String>, hai: Option<String> },
    /// Keepalive
    Z,
    /// Dora indicator revealed
    Dora { hai: Option<String> },
    /// Reach declaration
    Reach { who: Option<String>, step: Option<String> },
    /// Round end (win); `from_who` is "fromWho" on the wire
    Agari {
        who: Option<String>,
        from_who: Option<String>,
        machi: Option<String>,
        ten: Option<String>,
        hai: Option<String>,
        yaku: Option<String>,
    },
    /// Round end (exhaustive draw)
    Ryuukyoku {
        ten: Option<String>,
        hai0: Option<String>,
        hai1: Option<String>,
        hai2: Option<String>,
        hai3: Option<String>,
    },
    /// Game end
    Prof,
    /// Any other tag
    Unknown,
}

// ── Outgoing messages (to server) ────────────────────────────────────────
// Each is a JSON object whose keys are written in sorted order, as
// `serde_json` writes objects.

/// The text of the HELO message for `name`.
pub open spec fn helo_text(name: Seq<char>) -> Seq<char> {
    "{\"name\":"@ + json_quoted(name) + ",\"sx\":\"M\",\"tag\":\"HELO\"}"@
}

/// The text of the JOIN message for a lobby and game type.
pub open spec fn join_text(lobby: u8, game_type: u8) -> Seq<char> {
    "{\"t\":\""@ + decimal(lobby as nat) + seq![','] + decimal(game_type as nat) + "\",\"tag\":\"JOIN\"}"@
}

/// The text of the discard message for a tile.
pub open spec fn discard_text(tile136: u16) -> Seq<char> {
    "{\"p\":"@ + decimal(tile136 as nat) + ",\"tag\":\"D\"}"@
}

/// The text of the action response of type `action_type`.
pub open spec fn n_text(action_type: u8) -> Seq<char> {
    "{\"tag\":\"N\",\"type\":"@ + decimal(action_type as nat) + "}"@
}

/// An object member with a key given as text.
fn member(key: &str, value: JsonValue) -> (r: (String, JsonValue))
    ensures
        r.0@ == key@,
        r.1 == value,
{
    let mut k = String::new();
    push_str(&mut k, key);
    (k, value)
}

/// A string value given as text.
fn text_value(s: &str) -> (r: JsonValue)
    ensures
        r matches JsonValue::Text(t) && t@ == s@,
{
    let mut t = String::new();
    push_str(&mut t, s);
    JsonValue::Text(t)
}

proof fn lemma_quoted_plain(s: Seq<char>)
    requires
        json_plain(s),
    ensures
        json_quoted(s) == seq!['"'] + s + seq!['"'],
{
    lemma_json_plain(s);
}

/// The text of an object with two or three members.
proof fn lemma_object2(f: Seq<(String, JsonValue)>)
    requires
        f.len() == 2,
    ensures
        object_text(f) == seq!['{'] + json_quoted(f[0].0@) + seq![':'] + value_text(f[0].1) + seq![',']
            + json_quoted(f[1].0@) + seq![':'] + value_text(f[1].1) + seq!['}'],
{
    reveal_with_fuel(members_text, 3);
    assert(f.drop_last().drop_last() =~= Seq::<(String, JsonValue)>::empty());
    assert(f.drop_last().last() == f[0]);
    assert(object_text(f) =~= seq!['{'] + json_quoted(f[0].0@) + seq![':'] + value_text(f[0].1) + seq![',']
        + json_quoted(f[1].0@) + seq![':'] + value_text(f[1].1) + seq!['}']);
}

proof fn lemma_object3(f: Seq<(String, JsonValue)>)
    requires
        f.len() == 3,
    ensures
        object_text(f) == seq!['{'] + json_quoted(f[0].0@) + seq![':'] + value_text(f[0].1) + seq![',']
            + json_quoted(f[1].0@) + seq![':'] + value_text(f[1].1) + seq![','] + json_quoted(f[2].0@)
            + seq![':'] + value_text(f[2].1) + seq!['}'],
{
    reveal_with_fuel(members_text, 4);
    let g = f.drop_last();
    assert(g.drop_last().drop_last() =~= Seq::<(String, JsonValue)>::empty());
    assert(g.drop_last().last() == f[0]);
    assert(g.last() == f[1]);
    assert(object_text(f) =~= seq!['{'] + json_quoted(f[0].0@) + seq![':'] + value_text(f[0].1) + seq![',']
        + json_quoted(f[1].0@) + seq![':'] + value_text(f[1].1) + seq![','] + json_quoted(f[2].0@)
        + seq![':'] + value_text(f[2].1) + seq!['}']);
}

proof fn lemma_object4(f: Seq<(String, JsonValue)>)
    requires
        f.len() == 4,
    ensures
        object_text(f) == seq!['{'] + json_quoted(f[0].0@) + seq![':'] + value_text(f[0].1) + seq![',']
            + json_quoted(f[1].0@) + seq![':'] + value_text(f[1].1) + seq![','] + json_quoted(f[2].0@)
            + seq![':'] + value_text(f[2].1) + seq![','] + json_quoted(f[3].0@) + seq![':'] + value_text(
            f[3].1,
        ) + seq!['}'],
{
    reveal_with_fuel(members_text, 5);
    let g = f.drop_last();
    let h = g.drop_last();
    assert(h.drop_last().drop_last() =~= Seq::<(String, JsonValue)>::empty());
    assert(h.drop_last().last() == f[0]);
    assert(h.last() == f[1]);
    assert(g.last() == f[2]);
    assert(object_text(f) =~= seq!['{'] + json_quoted(f[0].0@) + seq![':'] + value_text(f[0].1) + seq![',']
        + json_quoted(f[1].0@) + seq![':'] + value_text(f[1].1) + seq![','] + json_quoted(f[2].0@)
        + seq![':'] + value_text(f[2].1) + seq![','] + json_quoted(f[3].0@) + seq![':'] + value_text(f[3].1)
        + seq!['}']);
}

/// `{"name":<name>,"sx":"M","tag":"HELO"}`
pub fn build_helo(name: &str) -> (r: String)
    ensures
        r@ == helo_text(name@),
{
    let mut n = String::new();
    push_str(&mut n, name);
    let fields = vec![
        member("name", JsonValue::Text(n)),
        member("sx", text_value("M")),
        member("tag", text_value("HELO")),
    ];
    proof {
        reveal_strlit("name");
        reveal_strlit("sx");
        reveal_strlit("tag");
        reveal_strlit("M");
        reveal_strlit("HELO");
        reveal_with_fuel(key_less, 3);
        assert(keys_increasing(fields@));
        lemma_object3(fields@);
        lemma_quoted_plain("name"@);
        lemma_quoted_plain("sx"@);
        lemma_quoted_plain("tag"@);
        lemma_quoted_plain("M"@);
        lemma_quoted_plain("HELO"@);
        reveal_strlit("{\"name\":");
        reveal_strlit(",\"sx\":\"M\",\"tag\":\"HELO\"}");
    }
    let r = json_object(&fields);
    assert(r@ =~= helo_text(name@));
    r
}

/// `{"t":"<lobby>,<game_type>","tag":"JOIN"}`
pub fn build_join(lobby: u8, game_type: u8) -> (r: String)
    ensures
        r@ == join_text(lobby, game_type),
{
    let mut t = String::new();
    push_decimal(&mut t, lobby as u64);
    push_char(&mut t, ',');
    push_decimal(&mut t, game_type as u64);
    proof {
        lemma_decimal_plain(lobby as nat);
        lemma_decimal_plain(game_type as nat);
        assert(json_plain(t@));
        lemma_quoted_plain(t@);
    }
    let fields = vec![member("t", JsonValue::Text(t)), member("tag", text_value("JOIN"))];
    proof {
        reveal_strlit("t");
        reveal_strlit("tag");
        reveal_strlit("JOIN");
        reveal_with_fuel(key_less, 3);
        assert(keys_increasing(fields@));
        lemma_object2(fields@);
        lemma_quoted_plain("t"@);
        lemma_quoted_plain("tag"@);
        lemma_quoted_plain("JOIN"@);
        reveal_strlit("{\"t\":\"");
        reveal_strlit("\",\"tag\":\"JOIN\"}");
    }
    let r = json_object(&fields);
    assert(r@ =~= "{\"t\":\""@ + decimal(lobby as nat) + seq![','] + decimal(game_type as nat)
        + "\",\"tag\":\"JOIN\"}"@);
    r
}

proof fn lemma_decimal_plain(n: nat)
    ensures
        json_plain(decimal(n)),
        forall|i: int| 0 <= i < decimal(n).len() ==> 48 <= #[trigger] (decimal(n)[i] as u32) <= 57,
    decreases n,
{
    if n >= 10 {
        lemma_decimal_plain(n / 10);
    }
}

/// `{"tag":"GOK"}`
pub fn build_gok() -> (r: String)
    ensures
        r@ == "{\"tag\":\"GOK\"}"@,
{
    let mut r = String::new();
    push_str(&mut r, "{\"tag\":\"GOK\"}");
    r
}

/// `{"tag":"NEXTREADY"}`
pub fn build_nextready() -> (r: String)
    ensures
        r@ == "{\"tag\":\"NEXTREADY\"}"@,
{
    let mut r = String::new();
    push_str(&mut r, "{\"tag\":\"NEXTREADY\"}");
    r
}

/// `{"tag":"BYE"}`
pub fn build_bye() -> (r: String)
    ensures
        r@ == "{\"tag\":\"BYE\"}"@,
{
    let mut r = String::new();
    push_str(&mut r, "{\"tag\":\"BYE\"}");
    r
}

/// `{"tag":"Z"}`
pub fn build_keepalive() -> (r: String)
    ensures
        r@ == "{\"tag\":\"Z\"}"@,
{
    let mut r = String::new();
    push_str(&mut r, "{\"tag\":\"Z\"}");
    r
}

/// Discard a tile: `{"p":<tile136>,"tag":"D"}`.
pub fn build_discard(tile136: u16) -> (r: String)
    ensures
        r@ == discard_text(tile136),
{
    let fields = vec![member("p", JsonValue::Number(tile136 as u64)), member("tag", text_value("D"))];
    proof {
        reveal_strlit("p");
        reveal_strlit("tag");
        reveal_strlit("D");
        reveal_with_fuel(key_less, 3);
        assert(keys_increasing(fields@));
        lemma_object2(fields@);
        lemma_quoted_plain("p"@);
        lemma_quoted_plain("tag"@);
        lemma_quoted_plain("D"@);
        reveal_strlit("{\"p\":");
        reveal_strlit(",\"tag\":\"D\"}");
    }
    let r = json_object(&fields);
    assert(r@ =~= discard_text(tile136));
    r
}

/// Reach declaration with the discard tile: `{"hai":<tile136>,"tag":"REACH"}`.
pub fn build_reach(tile136: u16) -> (r: String)
    ensures
        r@ == "{\"hai\":"@ + decimal(tile136 as nat) + ",\"tag\":\"REACH\"}"@,
{
    let fields = vec![member("hai", JsonValue::Number(tile136 as u64)), member("tag", text_value("REACH"))];
    proof {
        reveal_strlit("hai");
        reveal_strlit("tag");
        reveal_strlit("REACH");
        reveal_with_fuel(key_less, 3);
        assert(keys_increasing(fields@));
        lemma_object2(fields@);
        lemma_quoted_plain("hai"@);
        lemma_quoted_plain("tag"@);
        lemma_quoted_plain("REACH"@);
        reveal_strlit("{\"hai\":");
        reveal_strlit(",\"tag\":\"REACH\"}");
    }
    let r = json_object(&fields);
    assert(r@ =~= "{\"hai\":"@ + decimal(tile136 as nat) + ",\"tag\":\"REACH\"}"@);
    r
}

/// Action response: `{"tag":"N","type":<action_type>}` with type 0=pass, 1=pon,
/// 2=kan, 3=chi, 4=ankan, 5=kakan, 6=ron, 7=tsumo, 9=kyushukyuhai.
pub fn build_n(action_type: u8) -> (r: String)
    ensures
        r@ == n_text(action_type),
{
    let fields = vec![member("tag", text_value("N")), member("type", JsonValue::Number(action_type as u64))];
    proof {
        reveal_strlit("tag");
        reveal_strlit("type");
        reveal_strlit("N");
        reveal_with_fuel(key_less, 3);
        assert(keys_increasing(fields@));
        lemma_object2(fields@);
        lemma_quoted_plain("tag"@);
        lemma_quoted_plain("type"@);
        lemma_quoted_plain("N"@);
        reveal_strlit("{\"tag\":\"N\",\"type\":");
        reveal_strlit("}");
    }
    let r = json_object(&fields);
    assert(r@ =~= n_text(action_type));
    r
}

/// Meld response: `{"hai0":<hai0>,"hai1":<hai1>,"tag":"N","type":<action_type>}`.
pub fn build_n_meld(action_type: u8, hai0: u16, hai1: u16) -> (r: String)
    ensures
        r@ == "{\"hai0\":"@ + decimal(hai0 as nat) + ",\"hai1\":"@ + decimal(hai1 as nat)
            + ",\"tag\":\"N\",\"type\":"@ + decimal(action_type as nat) + "}"@,
{
    let fields = vec![
        member("hai0", JsonValue::Number(hai0 as u64)),
        member("hai1", JsonValue::Number(hai1 as u64)),
        member("tag", text_value("N")),
        member("type", JsonValue::Number(action_type as u64)),
    ];
    proof {
        reveal_strlit("hai0");
        reveal_strlit("hai1");
        reveal_strlit("tag");
        reveal_strlit("type");
        reveal_strlit("N");
        reveal_with_fuel(key_less, 5);
        assert(keys_increasing(fields@));
        lemma_object4(fields@);
        lemma_quoted_plain("hai0"@);
        lemma_quoted_plain("hai1"@);
        lemma_quoted_plain("tag"@);
        lemma_quoted_plain("type"@);
        lemma_quoted_plain("N"@);
        reveal_strlit("{\"hai0\":");
        reveal_strlit(",\"hai1\":");
        reveal_strlit(",\"tag\":\"N\",\"type\":");
        reveal_strlit("}");
    }
    let r = json_object(&fields);
    assert(r@ =~= "{\"hai0\":"@ + decimal(hai0 as nat) + ",\"hai1\":"@ + decimal(hai1 as nat)
        + ",\"tag\":\"N\",\"type\":"@ + decimal(action_type as nat) + "}"@);
    r
}

// ── Decimal numbers and comma-separated lists ───────────────────────────

pub open spec fn is_digit(b: u8) -> bool {
    48 <= b <= 57
}

pub open spec fn all_digits(d: Seq<u8>) -> bool {
    forall|i: int| 0 <= i < d.len() ==> #[trigger] is_digit(d[i])
}

/// Value of a run of decimal digits.
pub open spec fn digits_value(d: Seq<u8>) -> int
    decreases d.len(),
{
    if d.len() == 0 {
        0
    } else {
        digits_value(d.drop_last()) * 10 + (d.last() - 48)
    }
}

/// The integer written in `s` as std's `from_str` reads decimal text: an
/// optional sign ('-' only when `signed`) followed by one or more digits, and
/// nothing else.
pub open spec fn parse_decimal(s: Seq<u8>, signed: bool) -> Option<int> {
    if s.len() == 0 {
        None
    } else if (s[0] == 43 || s[0] == 45) && s.len() == 1 {
        None
    } else if s[0] == 43 {
        if all_digits(s.skip(1)) { Some(digits_value(s.skip(1))) } else { None }
    } else if s[0] == 45 && signed {
        if all_digits(s.skip(1)) { Some(-digits_value(s.skip(1))) } else { None }
    } else {
        if all_digits(s) { Some(digits_value(s)) } else { None }
    }
}

/// `parse_decimal`, failing when the value is outside `lo..=hi`.
pub open spec fn parse_in_range(s: Seq<u8>, signed: bool, lo: int, hi: int) -> Option<int> {
    match parse_decimal(s, signed) {
        Some(v) => if lo <= v <= hi { Some(v) } else { None },
        None => None,
    }
}

proof fn lemma_digits_value_nonneg(d: Seq<u8>)
    requires
        all_digits(d),
    ensures
        digits_value(d) >= 0,
    decreases d.len(),
{
    if d.len() > 0 {
        assert forall|i: int| 0 <= i < d.drop_last().len() implies #[trigger] is_digit(d.drop_last()[i]) by {
            assert(is_digit(d[i]));
        }
        assert(is_digit(d[d.len() - 1]));
        lemma_digits_value_nonneg(d.drop_last());
    }
}

const SATURATE: u64 = 10_000_000_000;

/// Value of the digit run `d`, saturated at `SATURATE`; `None` when a byte is not a digit.
fn digits_saturating(d: &[u8]) -> (r: Option<u64>)
    ensures
        r is Some <==> all_digits(d@),
        r matches Some(v) ==> (if digits_value(d@) >= SATURATE { v == SATURATE } else { v == digits_value(d@) }),
{
    let mut acc: u64 = 0;
    let mut i: usize = 0;
    while i < d.len()
        invariant
            i <= d@.len(),
            all_digits(d@.take(i as int)),
            if digits_value(d@.take(i as int)) >= SATURATE { acc == SATURATE } else { acc == digits_value(d@.take(i as int)) },
        decreases d@.len() - i,
    {
        let b = d[i];
        assert(d@.take(i + 1).drop_last() =~= d@.take(i as int));
        if b < 48 || b > 57 {
            assert(!is_digit(d@[i as int]));
            return None;
        }
        proof {
            lemma_digits_value_nonneg(d@.take(i as int));
        }
        if acc >= SATURATE {
            acc = SATURATE;
        } else {
            let next = acc * 10 + (b - 48) as u64;
            acc = if next >= SATURATE { SATURATE } else { next };
        }
        i = i + 1;
    }
    assert(d@.take(d@.len() as int) =~= d@);
    Some(acc)
}

/// Parse decimal text the way std's `str::parse` does for an integer type whose
/// range is `lo..=hi` (a '-' sign is accepted only when `signed`).
fn parse_bytes(s: &[u8], signed: bool, lo: i64, hi: i64) -> (r: Option<i64>)
    requires
        -2147483648 <= lo <= hi <= 2147483647,
    ensures
        r matches Some(v) ==> parse_in_range(s@, signed, lo as int, hi as int) == Some(v as int),
        r is None ==> parse_in_range(s@, signed, lo as int, hi as int) is None,
{
    if s.len() == 0 {
        return None;
    }
    if (s[0] == 43 || s[0] == 45) && s.len() == 1 {
        return None;
    }
    let negative = s[0] == 45 && signed;
    let body = if s[0] == 43 || negative {
        slice_subrange(s, 1, s.len())
    } else {
        s
    };
    assert(s[0] == 43 || negative ==> body@ == s@.skip(1));
    match digits_saturating(body) {
        None => None,
        Some(v) => {
            proof {
                lemma_digits_value_nonneg(body@);
            }
            if v >= SATURATE {
                None
            } else {
                let value: i64 = if negative { -(v as i64) } else { v as i64 };
                if lo <= value && value <= hi {
                    Some(value)
                } else {
                    None
                }
            }
        },
    }
}

/// The comma-separated fields of `s`, for a field that started at `start` and
/// a scan that has reached `i` (std's `split(',')`).
pub open spec fn fields_from(s: Seq<u8>, start: int, i: int) -> Seq<Seq<u8>>
    decreases s.len() - i,
{
    if i >= s.len() {
        seq![s.subrange(start, s.len() as int)]
    } else if s[i] == 44 {
        seq![s.subrange(start, i)] + fields_from(s, i + 1, i + 1)
    } else {
        fields_from(s, start, i + 1)
    }
}

/// The fields of `s` between commas (an empty `s` has one empty field).
pub open spec fn csv_fields(s: Seq<u8>) -> Seq<Seq<u8>> {
    fields_from(s, 0, 0)
}

/// The values of the fields that parse within `lo..=hi`, in order; the others are skipped.
pub open spec fn parsed_fields(f: Seq<Seq<u8>>, signed: bool, lo: int, hi: int) -> Seq<int>
    decreases f.len(),
{
    if f.len() == 0 {
        seq![]
    } else {
        parsed_fields(f.drop_last(), signed, lo, hi) + match parse_in_range(f.last(), signed, lo, hi) {
            Some(v) => seq![v],
            None => seq![],
        }
    }
}

fn parse_csv_bytes(s: &[u8], signed: bool, lo: i64, hi: i64) -> (r: Vec<i64>)
    requires
        -2147483648 <= lo <= hi <= 2147483647,
    ensures
        r@.map_values(|x: i64| x as int) == parsed_fields(csv_fields(s@), signed, lo as int, hi as int),
        forall|i: int| 0 <= i < r@.len() ==> lo <= #[trigger] r@[i] <= hi,
{
    let ghost lo_i = lo as int;
    let ghost hi_i = hi as int;
    let mut out: Vec<i64> = Vec::new();
    let ghost mut done: Seq<Seq<u8>> = seq![];
    let mut start: usize = 0;
    let mut i: usize = 0;
    while i < s.len()
        invariant
            -2147483648 <= lo <= hi <= 2147483647,
            start <= i <= s@.len(),
            csv_fields(s@) == done + fields_from(s@, start as int, i as int),
            out@.map_values(|x: i64| x as int) == parsed_fields(done, signed, lo as int, hi as int),
            forall|k: int| 0 <= k < out@.len() ==> lo <= #[trigger] out@[k] <= hi,
        decreases s@.len() - i,
    {
        if s[i] == 44 {
            let field = slice_subrange(s, start, i);
            let parsed = parse_bytes(field, signed, lo, hi);
            let ghost old_out = out@;
            if let Some(v) = parsed {
                out.push(v);
            }
            proof {
                let f = s@.subrange(start as int, i as int);
                assert((done + seq![f]).drop_last() =~= done);
                assert(done + fields_from(s@, start as int, i as int) =~= (done + seq![f]) + fields_from(
                    s@,
                    i + 1,
                    i + 1,
                ));
                assert(out@.map_values(|x: i64| x as int) =~= parsed_fields(done + seq![f], signed, lo as int, hi as int));
                done = done + seq![f];
            }
            start = i + 1;
        }
        i = i + 1;
    }
    let field = slice_subrange(s, start, s.len());
    let parsed = parse_bytes(field, signed, lo, hi);
    if let Some(v) = parsed {
        out.push(v);
    }
    proof {
        let f = s@.subrange(start as int, s@.len() as int);
        assert((done + seq![f]).drop_last() =~= done);
        assert(csv_fields(s@) =~= done + seq![f]);
        assert(out@.map_values(|x: i64| x as int) =~= parsed_fields(done + seq![f], signed, lo as int, hi as int));
    }
    out
}

/// Parse a comma-separated string of ints from the server; fields that are not
/// an `i32` are skipped.
pub fn parse_csv_i32(s: &str) -> (r: Vec<i32>)
    ensures
        r@.map_values(|x: i32| x as int) == parsed_fields(csv_fields(s.spec_bytes()), true, i32::MIN as int, i32::MAX as int),
        r@ == csv_i32(s.spec_bytes()),
{
    let v = parse_csv_bytes(s.as_bytes(), true, i32::MIN as i64, i32::MAX as i64);
    let mut r: Vec<i32> = Vec::new();
    let mut i: usize = 0;
    while i < v.len()
        invariant
            i <= v@.len(),
            forall|k: int| 0 <= k < v@.len() ==> i32::MIN <= #[trigger] v@[k] <= i32::MAX,
            r@.map_values(|x: i32| x as int) == v@.take(i as int).map_values(|x: i64| x as int),
        decreases v@.len() - i,
    {
        let x = v[i];
        assert(v@[i as int] == x);
        let y = x as i32;
        assert(y as int == x as int);
        let ghost before = r@;
        r.push(y);
        assert(r@.map_values(|x: i32| x as int) =~= before.map_values(|x: i32| x as int).push(y as int));
        assert(v@.take(i + 1).map_values(|x: i64| x as int) =~= v@.take(i as int).map_values(|x: i64| x as int).push(x as int));
        i = i + 1;
    }
    assert(v@.take(v@.len() as int) =~= v@);
    assert(r@ =~= csv_i32(s.spec_bytes())) by {
        let ints = r@.map_values(|x: i32| x as int);
        assert forall|k: int| 0 <= k < r@.len() implies r@[k] == csv_i32(s.spec_bytes())[k] by {
            assert(ints[k] == r@[k] as int);
        }
    }
    r
}

/// Parse a comma-separated string of u16s; fields that are not a `u16` are skipped.
pub fn parse_csv_u16(s: &str) -> (r: Vec<u16>)
    ensures
        r@.map_values(|x: u16| x as int) == parsed_fields(csv_fields(s.spec_bytes()), false, 0, u16::MAX as int),
        r@ == csv_u16(s.spec_bytes()),
{
    let v = parse_csv_bytes(s.as_bytes(), false, 0, u16::MAX as i64);
    let mut r: Vec<u16> = Vec::new();
    let mut i: usize = 0;
    while i < v.len()
        invariant
            i <= v@.len(),
            forall|k: int| 0 <= k < v@.len() ==> 0 <= #[trigger] v@[k] <= u16::MAX,
            r@.map_values(|x: u16| x as int) == v@.take(i as int).map_values(|x: i64| x as int),
        decreases v@.len() - i,
    {
        let x = v[i];
        assert(v@[i as int] == x);
        let y = x as u16;
        assert(y as int == x as int);
        let ghost before = r@;
        r.push(y);
        assert(r@.map_values(|x: u16| x as int) =~= before.map_values(|x: u16| x as int).push(y as int));
        assert(v@.take(i + 1).map_values(|x: i64| x as int) =~= v@.take(i as int).map_values(|x: i64| x as int).push(x as int));
        i = i + 1;
    }
    assert(v@.take(v@.len() as int) =~= v@);
    assert(r@ =~= csv_u16(s.spec_bytes())) by {
        let ints = r@.map_values(|x: u16| x as int);
        assert forall|k: int| 0 <= k < r@.len() implies r@[k] == csv_u16(s.spec_bytes())[k] by {
            assert(ints[k] == r@[k] as int);
        }
    }
    r
}

/// Parse decimal text as a `u8` (std's `str::parse::<u8>().ok()`).
pub fn parse_u8(s: &str) -> (r: Option<u8>)
    ensures
        r matches Some(v) ==> parse_in_range(s.spec_bytes(), false, 0, 255) == Some(v as int),
        r is None ==> parse_in_range(s.spec_bytes(), false, 0, 255) is None,
{
    match parse_bytes(s.as_bytes(), false, 0, 255) {
        Some(v) => Some(v as u8),
        None => None,
    }
}

/// Parse decimal text as a `u16` (std's `str::parse::<u16>().ok()`).
pub fn parse_u16(s: &str) -> (r: Option<u16>)
    ensures
        r matches Some(v) ==> parse_in_range(s.spec_bytes(), false, 0, 65535) == Some(v as int),
        r is None ==> parse_in_range(s.spec_bytes(), false, 0, 65535) is None,
{
    match parse_bytes(s.as_bytes(), false, 0, 65535) {
        Some(v) => Some(v as u16),
        None => None,
    }
}

/// Parse decimal text as an `i32` (std's `str::parse::<i32>().ok()`).
pub fn parse_i32(s: &str) -> (r: Option<i32>)
    ensures
        r matches Some(v) ==> parse_in_range(s.spec_bytes(), true, i32::MIN as int, i32::MAX as int) == Some(v as int),
        r is None ==> parse_in_range(s.spec_bytes(), true, i32::MIN as int, i32::MAX as int) is None,
{
    match parse_bytes(s.as_bytes(), true, i32::MIN as i64, i32::MAX as i64) {
        Some(v) => Some(v as i32),
        None => None,
    }
}

/// The `i32` fields of a comma-separated list.
pub open spec fn csv_i32(b: Seq<u8>) -> Seq<i32> {
    parsed_fields(csv_fields(b), true, i32::MIN as int, i32::MAX as int).map_values(|v: int| v as i32)
}

/// The `u16` fields of a comma-separated list.
pub open spec fn csv_u16(b: Seq<u8>) -> Seq<u16> {
    parsed_fields(csv_fields(b), false, 0, u16::MAX as int).map_values(|v: int| v as u16)
}

/// The decimal digits of `n`, as ASCII bytes.
pub open spec fn decimal_bytes(n: nat) -> Seq<u8>
    decreases n,
{
    if n < 10 {
        seq![(48 + n) as u8]
    } else {
        decimal_bytes(n / 10).push((48 + n % 10) as u8)
    }
}

/// An integer printed in decimal, with a '-' in front when negative.
pub open spec fn signed_bytes(v: int) -> Seq<u8> {
    if v < 0 {
        seq![45u8] + decimal_bytes((-v) as nat)
    } else {
        decimal_bytes(v as nat)
    }
}

/// The values printed in decimal (a '-' before a negative one) and joined by
/// commas, as `v.iter().map(|x| x.to_string()).collect::<Vec<_>>().join(",")`.
pub open spec fn csv_text(v: Seq<int>) -> Seq<u8>
    decreases v.len(),
{
    if v.len() == 0 {
        seq![]
    } else if v.len() == 1 {
        signed_bytes(v[0])
    } else {
        signed_bytes(v[0]) + seq![44u8] + csv_text(v.drop_first())
    }
}

proof fn lemma_decimal_bytes(n: nat)
    ensures
        decimal_bytes(n).len() >= 1,
        all_digits(decimal_bytes(n)),
        digits_value(decimal_bytes(n)) == n,
    decreases n,
{
    if n >= 10 {
        lemma_decimal_bytes(n / 10);
        let d = decimal_bytes(n);
        assert(d.drop_last() =~= decimal_bytes(n / 10));
        assert forall|i: int| 0 <= i < d.len() implies #[trigger] is_digit(d[i]) by {
            if i < d.len() - 1 {
                assert(d[i] == decimal_bytes(n / 10)[i]);
            }
        }
        assert(d.last() == 48 + n % 10);
        assert((n / 10) * 10 + n % 10 == n);
    } else {
        let d = decimal_bytes(n);
        assert(d.drop_last() =~= Seq::<u8>::empty());
        assert(digits_value(d.drop_last()) == 0);
        assert(d.last() == 48 + n);
    }
}

proof fn lemma_signed_bytes(v: int)
    ensures
        signed_bytes(v).len() >= 1,
        parse_decimal(signed_bytes(v), true) == Some(v),
        forall|i: int| 0 <= i < signed_bytes(v).len() ==> #[trigger] signed_bytes(v)[i] != 44,
{
    let s = signed_bytes(v);
    if v < 0 {
        let d = decimal_bytes((-v) as nat);
        lemma_decimal_bytes((-v) as nat);
        assert(s.skip(1) =~= d);
        assert forall|i: int| 0 <= i < s.len() implies #[trigger] s[i] != 44 by {
            if i > 0 {
                assert(s[i] == d[i - 1]);
                assert(is_digit(d[i - 1]));
            }
        }
    } else {
        lemma_decimal_bytes(v as nat);
        assert(is_digit(s[0]));
        assert forall|i: int| 0 <= i < s.len() implies #[trigger] s[i] != 44 by {
            assert(is_digit(s[i]));
        }
    }
}

/// Scanning a field with no comma from `i` to `k`.
proof fn lemma_fields_scan(s: Seq<u8>, start: int, i: int, k: int)
    requires
        0 <= start <= i <= k <= s.len(),
        forall|j: int| i <= j < k ==> #[trigger] s[j] != 44,
    ensures
        k == s.len() ==> fields_from(s, start, i) == seq![s.subrange(start, s.len() as int)],
        k < s.len() && s[k] == 44 ==> fields_from(s, start, i) == seq![s.subrange(start, k)] + fields_from(
            s,
            k + 1,
            k + 1,
        ),
    decreases k - i,
{
    if i < k {
        lemma_fields_scan(s, start, i + 1, k);
    }
}

/// The fields of `p + r` after `p` are the fields of `r`.
proof fn lemma_fields_shift(p: Seq<u8>, r: Seq<u8>, start: int, i: int)
    requires
        0 <= start <= i <= r.len(),
    ensures
        fields_from(p + r, p.len() + start, p.len() + i) == fields_from(r, start, i),
    decreases r.len() - i,
{
    let s = p + r;
    if i < r.len() {
        assert(s[p.len() + i] == r[i]);
        if r[i] == 44 {
            lemma_fields_shift(p, r, i + 1, i + 1);
            assert(s.subrange(p.len() + start, p.len() + i) =~= r.subrange(start, i));
        } else {
            lemma_fields_shift(p, r, start, i + 1);
        }
    } else {
        assert(s.subrange(p.len() + start, s.len() as int) =~= r.subrange(start, r.len() as int));
    }
}

/// The fields of the printed list are the printed values.
proof fn lemma_csv_text_fields(v: Seq<int>)
    requires
        v.len() >= 1,
    ensures
        csv_fields(csv_text(v)) == Seq::new(v.len(), |k: int| signed_bytes(v[k])),
    decreases v.len(),
{
    let s = csv_text(v);
    let a = signed_bytes(v[0]);
    lemma_signed_bytes(v[0]);
    if v.len() == 1 {
        lemma_fields_scan(s, 0, 0, s.len() as int);
        assert(s.subrange(0, s.len() as int) =~= a);
        assert(seq![a] =~= Seq::new(v.len(), |k: int| signed_bytes(v[k])));
    } else {
        let rest = csv_text(v.drop_first());
        let p = a + seq![44u8];
        assert(s =~= p + rest);
        assert forall|j: int| 0 <= j < a.len() implies #[trigger] s[j] != 44 by {
            assert(s[j] == a[j]);
        }
        lemma_fields_scan(s, 0, 0, a.len() as int);
        assert(s[a.len() as int] == 44);
        assert(s.subrange(0, a.len() as int) =~= a);
        lemma_fields_shift(p, rest, 0, 0);
        lemma_csv_text_fields(v.drop_first());
        assert(seq![a] + Seq::new(v.drop_first().len(), |k: int| signed_bytes(v.drop_first()[k])) =~= Seq::new(
            v.len(),
            |k: int| signed_bytes(v[k]),
        ));
    }
}

/// Fields that each parse give their values, in order.
proof fn lemma_parsed_all(f: Seq<Seq<u8>>, vals: Seq<int>)
    requires
        f.len() == vals.len(),
        forall|k: int| 0 <= k < f.len() ==> parse_in_range(#[trigger] f[k], true, i32::MIN as int, i32::MAX as int)
            == Some(vals[k]),
    ensures
        parsed_fields(f, true, i32::MIN as int, i32::MAX as int) == vals,
    decreases f.len(),
{
    if f.len() > 0 {
        assert forall|k: int| 0 <= k < f.drop_last().len() implies parse_in_range(
            #[trigger] f.drop_last()[k],
            true,
            i32::MIN as int,
            i32::MAX as int,
        ) == Some(vals.drop_last()[k]) by {
            assert(f.drop_last()[k] == f[k]);
        }
        lemma_parsed_all(f.drop_last(), vals.drop_last());
        assert(parse_in_range(f[f.len() - 1], true, i32::MIN as int, i32::MAX as int) == Some(vals[f.len() - 1]));
        assert(vals =~= vals.drop_last() + seq![vals.last()]);
    } else {
        assert(vals =~= Seq::<int>::empty());
    }
}

/// `parse_csv_i32` inverts printing: the values of `v` written in decimal
/// (as `to_string` writes them) and joined by commas (`csv_text`) read back
/// through `parse_csv_i32`, whose result is `csv_i32` of the text, as `v`.
pub proof fn lemma_parse_csv_i32_reads_printed_values(v: Seq<i32>)
    ensures
        csv_i32(csv_text(v.map_values(|x: i32| x as int))) == v,
{
    let w = v.map_values(|x: i32| x as int);
    if v.len() == 0 {
        let e = Seq::<u8>::empty();
        assert(csv_text(w) =~= e);
        assert(e.subrange(0, 0) =~= e);
        assert(csv_fields(csv_text(w)) =~= seq![e]);
        assert(parse_decimal(e, true) is None);
        assert(seq![e].drop_last() =~= Seq::<Seq<u8>>::empty());
        assert(parsed_fields(Seq::<Seq<u8>>::empty(), true, i32::MIN as int, i32::MAX as int) =~= Seq::<int>::empty());
        assert(parsed_fields(seq![e], true, i32::MIN as int, i32::MAX as int) =~= Seq::<int>::empty());
        assert(csv_i32(csv_text(w)) =~= v);
    } else {
        lemma_csv_text_fields(w);
        let f = Seq::new(w.len(), |k: int| signed_bytes(w[k]));
        assert forall|k: int| 0 <= k < f.len() implies parse_in_range(
            #[trigger] f[k],
            true,
            i32::MIN as int,
            i32::MAX as int,
        ) == Some(w[k]) by {
            lemma_signed_bytes(w[k]);
        }
        lemma_parsed_all(f, w);
        assert(csv_i32(csv_text(w)) =~= v);
    }
}

// ── Legacy message form, used by `GameState::update` ────────────────────

/// A decoded game message.
pub enum TenhouMessage {
    Init { seed: Vec<i32>, ten: Vec<i32>, oya: u8, hai: Vec<u16>, aka: bool },
    Go { game_type: i32 },
    Un { names: [String; 4], levels: [String; 4] },
    Ln,
    /// Final scores, as fixed-point values in hundredths
    GameEnd { scores: Vec<i64> },
    Helo { auth_code: Option<String>, rating: Option<String> },
    Reinit {
        seed: Vec<i32>,
        ten: Vec<i32>,
        oya: u8,
        hai: Vec<u16>,
        kawa: [Vec<u16>; 4],
        melds: [Vec<MeldInfo>; 4],
    },
    Draw { who: u8, tile: Option<u16> },
    Discard { who: u8, tile: u16, is_tsumogiri: bool },
    Meld { who: u8, meld: Meld, raw_m: i32 },
    Reach { who: u8, step: u8 },
    Dora { tile: u16 },
    Agari { who: u8, from_whom: u8, machi: u16, ten: Vec<i32>, hai: Vec<u16>, yaku: Vec<String> },
    Ryuukyoku { ten: Vec<i32>, revealed_hands: [Option<Vec<u16>>; 4] },
    Profile { name: String, level: String },
    Other(String),
}

pub struct MeldInfo {
    pub meld: Meld,
    pub who: u8,
}

} // verus!
