//! The decisions of the Tenhou HTML5 client (mjv.jp): what the bot answers
//! to each server message, and how its game state follows the messages.
//!
//! Protocol: JSON messages over WebSocket text frames.
//! Flow: HELO → LN → JOIN → REJOIN → JOIN(r) → GO → GOK → NEXTREADY → [play]
//!
//! The connection itself (socket, timers, reading frames) is the caller's:
//! it hands every parsed message to `TenhouBot::on_message` and sends back
//! what that returns.

use vstd::prelude::*;
use vstd::utf8::{encode_utf8, valid_utf8, is_char_boundary, encode_utf8_valid_utf8, valid_utf8_split, is_char_boundary_iff_not_is_continuation_byte, is_char_boundary_start_end_of_seq, pop_first_scalar};
use vstd::string::StringSliceAdditionalSpecFns;
use crate::ai::AiStrategy;
use crate::protocol::{ServerMessage, build_helo, build_join, build_gok, build_nextready, build_n, build_discard, helo_text, join_text, discard_text, n_text};
use crate::state::{GameState, spec_new_state, update_json_ok, update_json_post};
use crate::text::push_str;
use crate::tile::Tile136;

verus! {

// ── Byte-level text search ──────────────────────────────────────────────

/// `p` occurs in `h` at index `i`.
pub open spec fn occurs_at(h: Seq<u8>, p: Seq<u8>, i: int) -> bool {
    &&& 0 <= i
    &&& i + p.len() <= h.len()
    &&& h.subrange(i, i + p.len()) == p
}

/// The first index at or after `i` where `p` occurs in `h`.
pub open spec fn find_from(h: Seq<u8>, p: Seq<u8>, i: int) -> Option<int>
    decreases h.len() + 1 - i,
{
    if i < 0 || i + p.len() > h.len() {
        None
    } else if occurs_at(h, p, i) {
        Some(i)
    } else {
        find_from(h, p, i + 1)
    }
}

/// `p` occurs somewhere in `h`.
pub open spec fn contains_bytes(h: Seq<u8>, p: Seq<u8>) -> bool {
    find_from(h, p, 0) is Some
}

pub proof fn lemma_find_from(h: Seq<u8>, p: Seq<u8>, i: int)
    ensures
        find_from(h, p, i) matches Some(k) ==> i <= k && occurs_at(h, p, k),
    decreases h.len() + 1 - i,
{
    if !(i < 0 || i + p.len() > h.len()) && !occurs_at(h, p, i) {
        lemma_find_from(h, p, i + 1);
    }
}

/// The key of a JSON string field: `"<field>":"`.
pub open spec fn field_pattern(field: Seq<u8>) -> Seq<u8> {
    seq![34u8] + field + seq![34u8, 58u8, 34u8]
}

/// The text of the first string field `field` of a JSON text: what lies
/// between the first `"<field>":"` and the next `"`.
pub open spec fn json_field(h: Seq<u8>, field: Seq<u8>) -> Option<Seq<u8>> {
    match find_from(h, field_pattern(field), 0) {
        None => None,
        Some(p) => {
            let start = p + field_pattern(field).len();
            match find_from(h, seq![34u8], start) {
                None => None,
                Some(e) => Some(h.subrange(start, e)),
            }
        },
    }
}

/// The key of a quoted `t` value: `"t":"`.
pub open spec fn t_quoted_key() -> Seq<u8> {
    seq![34u8, 116u8, 34u8, 58u8, 34u8]
}

/// The key of a `t` value: `"t":`.
pub open spec fn t_key() -> Seq<u8> {
    seq![34u8, 116u8, 34u8, 58u8]
}

/// The quoted `t` values from index `from` on: each text between a
/// `"t":"` and the next `"`, the search going on from that quote.
pub open spec fn quoted_t_values(h: Seq<u8>, from: int) -> Seq<Seq<u8>>
    decreases h.len() - from,
{
    match find_from(h, t_quoted_key(), from) {
        None => seq![],
        Some(pos) => {
            let start = pos + 5;
            match find_from(h, seq![34u8], start) {
                None => seq![],
                Some(e) => {
                    proof {
                        lemma_find_from(h, t_quoted_key(), from);
                        lemma_find_from(h, seq![34u8], start);
                    }
                    seq![h.subrange(start, e)] + quoted_t_values(h, e)
                },
            }
        },
    }
}

/// The first index at or after `i` whose byte is not an ASCII digit (or the end).
pub open spec fn digits_end(h: Seq<u8>, i: int) -> int
    decreases h.len() - i,
{
    if i < 0 || i >= h.len() {
        i
    } else if 48 <= h[i] <= 57 {
        digits_end(h, i + 1)
    } else {
        i
    }
}

pub proof fn lemma_digits_end(h: Seq<u8>, i: int)
    requires
        0 <= i <= h.len(),
    ensures
        i <= digits_end(h, i) <= h.len(),
        forall|k: int| i <= k < digits_end(h, i) ==> 48 <= #[trigger] h[k] <= 57,
        digits_end(h, i) < h.len() ==> !(48 <= h[digits_end(h, i)] <= 57),
    decreases h.len() - i,
{
    if i < h.len() && 48 <= h[i] <= 57 {
        lemma_digits_end(h, i + 1);
    }
}

/// The unquoted `t` values from index `from` on: after each `"t":` that is
/// not followed by a quote, the run of digits there (possibly empty); a
/// quoted value is skipped.
pub open spec fn bare_t_values(h: Seq<u8>, from: int) -> Seq<Seq<u8>>
    decreases h.len() - from,
{
    match find_from(h, t_key(), from) {
        None => seq![],
        Some(pos) => {
            proof {
                lemma_find_from(h, t_key(), from);
            }
            let start = pos + 4;
            if start < h.len() && h[start] == 34 {
                bare_t_values(h, start)
            } else {
                proof {
                    lemma_digits_end(h, start);
                }
                let end = digits_end(h, start);
                seq![h.subrange(start, end)] + bare_t_values(h, end)
            }
        },
    }
}

/// Every `t` value of a JSON text: the quoted ones, then the unquoted ones.
pub open spec fn t_values(h: Seq<u8>) -> Seq<Seq<u8>> {
    quoted_t_values(h, 0) + bare_t_values(h, 0)
}

/// The UTF-8 bytes of each string.
pub open spec fn texts_bytes(v: Seq<String>) -> Seq<Seq<u8>> {
    v.map_values(|s: String| encode_utf8(s@))
}

/// `p` occurs in `h` at `i`.
fn matches_at(h: &[u8], p: &[u8], i: usize) -> (r: bool)
    requires
        i + p@.len() <= h@.len(),
    ensures
        r == occurs_at(h@, p@, i as int),
{
    let mut j: usize = 0;
    while j < p.len()
        invariant
            i + p@.len() <= h@.len(),
            j <= p@.len(),
            forall|k: int| 0 <= k < j ==> h@[i + k] == p@[k],
        decreases p@.len() - j,
    {
        let hl = h.len();
        assert(i + j < hl);
        if h[i + j] != p[j] {
            assert(h@.subrange(i as int, i + p@.len())[j as int] != p@[j as int]);
            return false;
        }
        j = j + 1;
    }
    assert(h@.subrange(i as int, i + p@.len()) =~= p@);
    true
}

/// The first index at or after `from` where `p` occurs in `h`.
fn find_bytes(h: &[u8], p: &[u8], from: usize) -> (r: Option<usize>)
    requires
        p@.len() > 0,
    ensures
        r matches Some(k) ==> find_from(h@, p@, from as int) == Some(k as int),
        r is None ==> find_from(h@, p@, from as int) is None,
{
    let mut i = from;
    while i <= h.len() && p.len() <= h.len() - i
        invariant
            from <= i,
            p@.len() > 0,
            find_from(h@, p@, from as int) == find_from(h@, p@, i as int),
        decreases h@.len() + 1 - i,
    {
        if matches_at(h, p, i) {
            return Some(i);
        }
        i = i + 1;
    }
    None
}

/// A position right after an ASCII byte is a character boundary.
proof fn lemma_after_ascii(b: Seq<u8>, i: int)
    requires
        valid_utf8(b),
        0 < i <= b.len(),
        b[i - 1] < 128,
    ensures
        is_char_boundary(b, i),
{
    if i == b.len() {
        is_char_boundary_start_end_of_seq(b);
    } else {
        is_char_boundary_iff_not_is_continuation_byte(b, i - 1);
        valid_utf8_split(b, i - 1);
        let s = b.subrange(i - 1, b.len() as int);
        assert(s[0] == b[i - 1]);
        let t = b.subrange(i, b.len() as int);
        assert(pop_first_scalar(s) =~= t);
        assert(valid_utf8(t));
        assert(t[0] == b[i]);
        is_char_boundary_iff_not_is_continuation_byte(b, i);
    }
}

/// A position holding an ASCII byte is a character boundary.
proof fn lemma_at_ascii(b: Seq<u8>, i: int)
    requires
        valid_utf8(b),
        0 <= i < b.len(),
        b[i] < 128,
    ensures
        is_char_boundary(b, i),
{
    is_char_boundary_iff_not_is_continuation_byte(b, i);
}

/// The text of `s` between the byte positions `a` and `b`.
fn text_between(s: &str, a: usize, b: usize) -> (r: String)
    requires
        a <= b <= s.spec_bytes().len(),
        is_char_boundary(s.spec_bytes(), a as int),
        is_char_boundary(s.spec_bytes(), b as int),
    ensures
        encode_utf8(r@) == s.spec_bytes().subrange(a as int, b as int),
{
    let ghost bytes = s.spec_bytes();
    proof {
        encode_utf8_valid_utf8(s@);
        valid_utf8_split(bytes, a as int);
    }
    let (_, rest) = s.split_at(a);
    let ghost rb = rest.spec_bytes();
    assert(rb =~= bytes.subrange(a as int, bytes.len() as int));
    proof {
        if b < bytes.len() {
            is_char_boundary_iff_not_is_continuation_byte(bytes, b as int);
            assert(rb[b - a] == bytes[b as int]);
            is_char_boundary_iff_not_is_continuation_byte(rb, b - a);
        } else {
            is_char_boundary_start_end_of_seq(rb);
        }
    }
    let (piece, _) = rest.split_at(b - a);
    assert(piece.spec_bytes() =~= bytes.subrange(a as int, b as int));
    piece.to_owned()
}

/// Bytes of a short pattern.
fn pattern(bytes: &[u8]) -> (r: Vec<u8>)
    ensures
        r@ == bytes@,
{
    let mut r: Vec<u8> = Vec::new();
    let mut i: usize = 0;
    while i < bytes.len()
        invariant
            i <= bytes@.len(),
            r@ == bytes@.take(i as int),
        decreases bytes@.len() - i,
    {
        r.push(bytes[i]);
        assert(bytes@.take(i + 1) =~= bytes@.take(i as int).push(bytes@[i as int]));
        i = i + 1;
    }
    assert(bytes@.take(bytes@.len() as int) =~= bytes@);
    r
}

/// Extract a single JSON string field value: the text between the first
/// `"<field>":"` and the next quote.
pub fn parse_json_field(json: &str, field: &str) -> (r: Option<String>)
    ensures
        r is Some <==> json_field(json.spec_bytes(), field.spec_bytes()) is Some,
        r matches Some(v) ==> json_field(json.spec_bytes(), field.spec_bytes()) == Some(encode_utf8(v@)),
{
    let h = json.as_bytes();
    let f = field.as_bytes();
    let mut pat: Vec<u8> = Vec::new();
    pat.push(34);
    let mut i: usize = 0;
    while i < f.len()
        invariant
            i <= f@.len(),
            pat@ == seq![34u8] + f@.take(i as int),
        decreases f@.len() - i,
    {
        pat.push(f[i]);
        assert(f@.take(i + 1) =~= f@.take(i as int).push(f@[i as int]));
        i = i + 1;
    }
    pat.push(34);
    pat.push(58);
    pat.push(34);
    assert(f@.take(f@.len() as int) =~= f@);
    assert(pat@ =~= field_pattern(f@));
    let ghost hb = h@;
    let hlen = h.len();
    match find_bytes(h, pat.as_slice(), 0) {
        None => None,
        Some(p) => {
            proof {
                lemma_find_from(hb, pat@, 0);
                assert(hb.subrange(p as int, p + pat@.len())[pat@.len() - 1] == 34);
            }
            let start = p + pat.len();
            let quote = pattern(&[34u8]);
            assert(quote@ =~= seq![34u8]);
            match find_bytes(h, quote.as_slice(), start) {
                None => None,
                Some(e) => {
                    proof {
                        lemma_find_from(hb, seq![34u8], start as int);
                        assert(hb.subrange(e as int, e + 1)[0] == 34);
                        encode_utf8_valid_utf8(json@);
                        lemma_after_ascii(hb, start as int);
                        lemma_at_ascii(hb, e as int);
                    }
                    Some(text_between(json, start, e))
                },
            }
        },
    }
}

/// Extract t= values from a JSON message (for win/meld triggers): see `t_values`.
pub fn extract_t_values(json: &str) -> (r: Vec<String>)
    ensures
        texts_bytes(r@) == t_values(json.spec_bytes()),
{
    let h = json.as_bytes();
    let ghost hb = h@;
    let hlen = h.len();
    proof {
        encode_utf8_valid_utf8(json@);
    }
    let tq = pattern(&[34u8, 116u8, 34u8, 58u8, 34u8]);
    let tk = pattern(&[34u8, 116u8, 34u8, 58u8]);
    let quote = pattern(&[34u8]);
    assert(tq@ =~= t_quoted_key());
    assert(tk@ =~= t_key());
    assert(quote@ =~= seq![34u8]);
    let mut values: Vec<String> = Vec::new();
    let mut pos: usize = 0;
    assert(texts_bytes(values@) =~= Seq::<Seq<u8>>::empty());
    loop
        invariant
            hb == h@,
            hlen == hb.len(),
            hb == json.spec_bytes(),
            valid_utf8(hb),
            tq@ == t_quoted_key(),
            quote@ == seq![34u8],
            pos <= hb.len(),
            texts_bytes(values@) + quoted_t_values(hb, pos as int) == quoted_t_values(hb, 0),
        ensures
            texts_bytes(values@) == quoted_t_values(hb, 0),
        decreases hb.len() - pos,
    {
        match find_bytes(h, tq.as_slice(), pos) {
            None => {
                assert(texts_bytes(values@) + Seq::<Seq<u8>>::empty() =~= texts_bytes(values@));
                break;
            },
            Some(k) => {
                proof {
                    lemma_find_from(hb, t_quoted_key(), pos as int);
                    assert(hb.subrange(k as int, k + 5)[4] == 34);
                }
                let start = k + 5;
                match find_bytes(h, quote.as_slice(), start) {
                    None => {
                        assert(texts_bytes(values@) + Seq::<Seq<u8>>::empty() =~= texts_bytes(values@));
                        break;
                    },
                    Some(e) => {
                        proof {
                            lemma_find_from(hb, seq![34u8], start as int);
                            assert(hb.subrange(e as int, e + 1)[0] == 34);
                            lemma_after_ascii(hb, start as int);
                            lemma_at_ascii(hb, e as int);
                        }
                        let v = text_between(json, start, e);
                        let ghost before = values@;
                        values.push(v);
                        assert(texts_bytes(values@) =~= texts_bytes(before).push(encode_utf8(v@)));
                        assert(quoted_t_values(hb, pos as int) == seq![hb.subrange(start as int, e as int)]
                            + quoted_t_values(hb, e as int));
                        assert(texts_bytes(values@) + quoted_t_values(hb, e as int) =~= texts_bytes(before)
                            + quoted_t_values(hb, pos as int));
                        pos = e;
                    },
                }
            },
        }
    }
    let ghost first = values@;
    // Also the numeric t values: "t":16
    let mut pos: usize = 0;
    loop
        invariant
            hb == h@,
            hlen == hb.len(),
            hb == json.spec_bytes(),
            valid_utf8(hb),
            tk@ == t_key(),
            texts_bytes(first) == quoted_t_values(hb, 0),
            values@.len() >= first.len(),
            values@.take(first.len() as int) == first,
            pos <= hb.len(),
            texts_bytes(values@) + bare_t_values(hb, pos as int) == t_values(hb),
        ensures
            texts_bytes(values@) == t_values(hb),
        decreases hb.len() - pos,
    {
        match find_bytes(h, tk.as_slice(), pos) {
            None => {
                assert(texts_bytes(values@) + Seq::<Seq<u8>>::empty() =~= texts_bytes(values@));
                break;
            },
            Some(k) => {
                proof {
                    lemma_find_from(hb, t_key(), pos as int);
                    assert(hb.subrange(k as int, k + 4)[3] == 58);
                }
                let start = k + 4;
                if start < h.len() && h[start] == 34 {
                    assert(bare_t_values(hb, pos as int) == bare_t_values(hb, start as int));
                    pos = start;
                } else {
                    let mut end = start;
                    while end < h.len() && 48 <= h[end] && h[end] <= 57
                        invariant
                            hb == h@,
                            start <= end <= hb.len(),
                            digits_end(hb, start as int) == digits_end(hb, end as int),
                        decreases hb.len() - end,
                    {
                        end = end + 1;
                    }
                    proof {
                        lemma_digits_end(hb, start as int);
                        lemma_after_ascii(hb, start as int);
                        if end > start {
                            assert(48 <= hb[end - 1] <= 57);
                        }
                        lemma_after_ascii(hb, end as int);
                    }
                    let v = text_between(json, start, end);
                    let ghost before = values@;
                    values.push(v);
                    assert(texts_bytes(values@) =~= texts_bytes(before).push(encode_utf8(v@)));
                    assert(bare_t_values(hb, pos as int) == seq![hb.subrange(start as int, end as int)]
                        + bare_t_values(hb, end as int));
                    assert(texts_bytes(values@) + bare_t_values(hb, end as int) =~= texts_bytes(before)
                        + bare_t_values(hb, pos as int));
                    assert(values@.take(first.len() as int) =~= before.take(first.len() as int));
                    pos = end;
                }
            },
        }
    }
    values
}

// ── Reactions to game messages ──────────────────────────────────────────

/// `"tag":"T"`: the bot drew a tile.
pub open spec fn tag_draw() -> Seq<u8> {
    seq![34u8, 116u8, 97u8, 103u8, 34u8, 58u8, 34u8, 84u8, 34u8]
}

/// `"tag":"D"`: a discard.
pub open spec fn tag_discard() -> Seq<u8> {
    seq![34u8, 116u8, 97u8, 103u8, 34u8, 58u8, 34u8, 68u8, 34u8]
}

/// `"tag":"d"`: a discard of the drawn tile.
pub open spec fn tag_tsumogiri() -> Seq<u8> {
    seq![34u8, 116u8, 97u8, 103u8, 34u8, 58u8, 34u8, 100u8, 34u8]
}

/// The `t` codes that offer tsumo: "16" and "48".
pub open spec fn tsumo_codes() -> Seq<Seq<u8>> {
    seq![seq![49u8, 54u8], seq![52u8, 56u8]]
}

/// The `t` code that offers kyushu kyuhai: "64".
pub open spec fn kyushu_codes() -> Seq<Seq<u8>> {
    seq![seq![54u8, 52u8]]
}

/// The `t` codes that offer ron: "8" to "13" and "15".
pub open spec fn ron_codes() -> Seq<Seq<u8>> {
    seq![
        seq![56u8],
        seq![57u8],
        seq![49u8, 48u8],
        seq![49u8, 49u8],
        seq![49u8, 50u8],
        seq![49u8, 51u8],
        seq![49u8, 53u8],
    ]
}

/// Some value of `values` is one of `codes`.
pub open spec fn has_code(values: Seq<Seq<u8>>, codes: Seq<Seq<u8>>) -> bool {
    exists|i: int| 0 <= i < values.len() && codes.contains(#[trigger] values[i])
}

/// What the bot does about a game message.
#[derive(Debug, Clone, Copy, PartialEq, Eq, Structural)]
pub enum Reaction {
    /// No answer
    Nothing,
    /// The round ended: ready for the next one
    NextReady,
    /// Declare tsumo
    Tsumo,
    /// Declare kyushu kyuhai
    KyushuKyuhai,
    /// Declare ron
    Ron,
    /// Pass on an opponent's discard
    Pass,
    /// Choose and send a discard
    Discard,
}

/// The reaction to a message whose raw text is `h`: nothing to a round's
/// start or a keepalive; ready after a round's end; after the bot's draw,
/// tsumo or kyushu kyuhai when offered, else a discard; after a discard,
/// ron when offered, else pass.
pub open spec fn spec_reaction(h: Seq<u8>, msg: ServerMessage) -> Reaction {
    match msg {
        ServerMessage::Init { .. } => Reaction::Nothing,
        ServerMessage::Z => Reaction::Nothing,
        ServerMessage::Agari { .. } => Reaction::NextReady,
        ServerMessage::Ryuukyoku { .. } => Reaction::NextReady,
        _ => if contains_bytes(h, tag_draw()) {
            if has_code(t_values(h), tsumo_codes()) {
                Reaction::Tsumo
            } else if has_code(t_values(h), kyushu_codes()) {
                Reaction::KyushuKyuhai
            } else {
                Reaction::Discard
            }
        } else if contains_bytes(h, tag_discard()) || contains_bytes(h, tag_tsumogiri()) {
            if has_code(t_values(h), ron_codes()) {
                Reaction::Ron
            } else {
                Reaction::Pass
            }
        } else {
            Reaction::Nothing
        },
    }
}

/// The messages sent for a reaction other than a discard.
pub open spec fn reply_texts(re: Reaction) -> Seq<Seq<char>> {
    match re {
        Reaction::NextReady => seq!["{\"tag\":\"NEXTREADY\"}"@],
        Reaction::Tsumo => seq![n_text(7)],
        Reaction::KyushuKyuhai => seq![n_text(9)],
        Reaction::Ron => seq![n_text(6)],
        Reaction::Pass => seq![n_text(0)],
        _ => seq![],
    }
}

/// The texts of a list of messages.
pub open spec fn texts(v: Seq<String>) -> Seq<Seq<char>> {
    v.map_values(|s: String| s@)
}

/// The messages answer `re`: for a discard, one discard message of some tile.
/// The answers to a reaction; a discard names a tile that the strategy
/// `ai` may choose in `state`.
pub open spec fn answers<A: AiStrategy>(msgs: Seq<Seq<char>>, re: Reaction, ai: A, state: GameState) -> bool {
    if re == Reaction::Discard {
        msgs.len() == 1 && exists|t: Tile136|
            call_ensures(A::choose_discard, (&ai, &state), t) && #[trigger] discard_text(t) == msgs[0]
    } else {
        msgs == reply_texts(re)
    }
}

fn bytes_equal(a: &[u8], b: &[u8]) -> (r: bool)
    ensures
        r == (a@ == b@),
{
    if a.len() != b.len() {
        return false;
    }
    let mut i: usize = 0;
    while i < a.len()
        invariant
            a@.len() == b@.len(),
            i <= a@.len(),
            forall|k: int| 0 <= k < i ==> a@[k] == b@[k],
        decreases a@.len() - i,
    {
        if a[i] != b[i] {
            return false;
        }
        i = i + 1;
    }
    assert(a@ =~= b@);
    true
}

/// The byte views of a list of byte strings.
pub open spec fn byte_views(v: Seq<Vec<u8>>) -> Seq<Seq<u8>> {
    v.map_values(|c: Vec<u8>| c@)
}

fn has_code_in(values: &Vec<String>, codes: &Vec<Vec<u8>>) -> (r: bool)
    ensures
        r == has_code(texts_bytes(values@), byte_views(codes@)),
{
    let ghost tv = texts_bytes(values@);
    let ghost cv = byte_views(codes@);
    let mut i: usize = 0;
    while i < values.len()
        invariant
            tv == texts_bytes(values@),
            cv == byte_views(codes@),
            i <= values@.len(),
            forall|k: int| 0 <= k < i ==> !cv.contains(#[trigger] tv[k]),
        decreases values@.len() - i,
    {
        let v = values[i].as_str().as_bytes();
        assert(v@ == tv[i as int]);
        let mut j: usize = 0;
        while j < codes.len()
            invariant
                tv == texts_bytes(values@),
                cv == byte_views(codes@),
                i < values@.len(),
                v@ == tv[i as int],
                j <= codes@.len(),
                forall|q: int| 0 <= q < j ==> cv[q] != v@,
            decreases codes@.len() - j,
        {
            if bytes_equal(v, codes[j].as_slice()) {
                assert(cv[j as int] == v@);
                return true;
            }
            j = j + 1;
        }
        assert(!cv.contains(tv[i as int]));
        i = i + 1;
    }
    false
}

fn codes(list: &[&[u8]]) -> (r: Vec<Vec<u8>>)
    ensures
        byte_views(r@) == list@.map_values(|c: &[u8]| c@),
{
    let mut r: Vec<Vec<u8>> = Vec::new();
    let mut i: usize = 0;
    while i < list.len()
        invariant
            i <= list@.len(),
            byte_views(r@) == list@.take(i as int).map_values(|c: &[u8]| c@),
        decreases list@.len() - i,
    {
        let c = pattern(list[i]);
        let ghost before = r@;
        r.push(c);
        assert(byte_views(r@) =~= byte_views(before).push(c@));
        assert(list@.take(i + 1).map_values(|c: &[u8]| c@) =~= list@.take(i as int).map_values(|c: &[u8]| c@).push(
            list@[i as int]@,
        ));
        i = i + 1;
    }
    assert(list@.take(list@.len() as int) =~= list@);
    r
}

/// Whether the raw text contains `p`.
fn raw_contains(raw: &[u8], p: &[u8]) -> (r: bool)
    requires
        p@.len() > 0,
    ensures
        r == contains_bytes(raw@, p@),
{
    match find_bytes(raw, p, 0) {
        Some(_) => true,
        None => false,
    }
}

/// The reaction to a message: see `spec_reaction`.
pub fn classify_message(raw: &str, parsed: &ServerMessage) -> (r: Reaction)
    ensures
        r == spec_reaction(raw.spec_bytes(), *parsed),
{
    match parsed {
        ServerMessage::Init { .. } => Reaction::Nothing,
        ServerMessage::Z => Reaction::Nothing,
        ServerMessage::Agari { .. } => Reaction::NextReady,
        ServerMessage::Ryuukyoku { .. } => Reaction::NextReady,
        _ => {
            let h = raw.as_bytes();
            let draw = pattern(&[34u8, 116u8, 97u8, 103u8, 34u8, 58u8, 34u8, 84u8, 34u8]);
            let disc = pattern(&[34u8, 116u8, 97u8, 103u8, 34u8, 58u8, 34u8, 68u8, 34u8]);
            let giri = pattern(&[34u8, 116u8, 97u8, 103u8, 34u8, 58u8, 34u8, 100u8, 34u8]);
            assert(draw@ =~= tag_draw());
            assert(disc@ =~= tag_discard());
            assert(giri@ =~= tag_tsumogiri());
            if raw_contains(h, draw.as_slice()) {
                let t_values = extract_t_values(raw);
                let tsumo = codes(&[&[49u8, 54u8], &[52u8, 56u8]]);
                assert(byte_views(tsumo@) =~= tsumo_codes());
                let kyushu = codes(&[&[54u8, 52u8]]);
                assert(byte_views(kyushu@) =~= kyushu_codes());
                if has_code_in(&t_values, &tsumo) {
                    Reaction::Tsumo
                } else if has_code_in(&t_values, &kyushu) {
                    Reaction::KyushuKyuhai
                } else {
                    Reaction::Discard
                }
            } else if raw_contains(h, disc.as_slice()) || raw_contains(h, giri.as_slice()) {
                let t_values = extract_t_values(raw);
                let ron = codes(
                    &[&[56u8], &[57u8], &[49u8, 48u8], &[49u8, 49u8], &[49u8, 50u8], &[49u8, 51u8], &[49u8, 53u8]],
                );
                assert(byte_views(ron@) =~~= ron_codes());
                if has_code_in(&t_values, &ron) {
                    Reaction::Ron
                } else {
                    Reaction::Pass
                }
            } else {
                Reaction::Nothing
            }
        },
    }
}

// ── The bot ──────────────────────────────────────────────────────────────

/// Connection settings of the bot.
pub struct BotConfig {
    pub user_id: String,
    pub lobby: u8,
    pub game_type: u8,
    pub search_timeout: u64,
}

impl Default for BotConfig {
    fn default() -> (r: Self)
        ensures
            r.user_id@ == "NoName"@,
            r.lobby == 0,
            r.game_type == 0,
            r.search_timeout == 120,
    {
        let mut user_id = String::new();
        push_str(&mut user_id, "NoName");
        BotConfig { user_id, lobby: 0, game_type: 0, search_timeout: 120 }
    }
}

/// The bot: its settings, its strategy and what it knows of the game.
pub struct TenhouBot<A: AiStrategy> {
    pub config: BotConfig,
    pub ai: A,
    pub state: GameState,
}

impl<A: AiStrategy> TenhouBot<A> {
    pub fn new(config: BotConfig, ai: A) -> (r: Self)
        ensures
            spec_new_state(r.state, config.lobby, config.game_type),
            r.config == config,
            r.ai == ai,
    {
        TenhouBot { state: GameState::new(config.lobby, config.game_type), config, ai }
    }

    /// The HELO message that opens the session.
    pub fn helo(&self) -> (r: String)
        ensures
            r@ == helo_text(self.config.user_id@),
    {
        build_helo(self.config.user_id.as_str())
    }

    /// A message before the lobby is ready: true once LN arrives; HELO
    /// answers are taken as they are; any other message updates the state.
    pub fn on_login_message(&mut self, parsed: &ServerMessage) -> (got_ln: bool)
        requires
            update_json_ok(old(self).state, *parsed),
        ensures
            final(self).config == old(self).config,
            final(self).ai == old(self).ai,
            got_ln == (*parsed is Ln),
            (*parsed is Helo || *parsed is Ln) ==> final(self).state == old(self).state,
            !(*parsed is Helo || *parsed is Ln) ==> update_json_post(old(self).state, final(self).state, *parsed),
    {
        match parsed {
            ServerMessage::Helo { .. } => false,
            ServerMessage::Ln => true,
            _ => {
                self.state.update_json(parsed);
                false
            },
        }
    }

    /// Join the lobby: the JOIN message; the bot is now searching.
    pub fn join_lobby(&mut self) -> (r: String)
        ensures
            r@ == join_text(old(self).config.lobby, old(self).config.game_type),
            final(self).state == (GameState { is_searching: true, ..old(self).state }),
            final(self).config == old(self).config,
            final(self).ai == old(self).ai,
    {
        let join = build_join(self.config.lobby, self.config.game_type);
        self.state.is_searching = true;
        join
    }

    /// A message of the game: the state follows it, and the answers to send
    /// are returned. A rejoin prompt is answered by JOIN; a found game by
    /// GOK and NEXTREADY; the game's start and end by nothing; any other
    /// message by its reaction (see `process_message`).
    pub fn on_message(&mut self, raw: &str, parsed: &ServerMessage) -> (r: Vec<String>)
        requires
            update_json_ok(old(self).state, *parsed),
        ensures
            final(self).config == old(self).config,
            final(self).ai == old(self).ai,
            match *parsed {
                ServerMessage::Rejoin { .. } => {
                    &&& texts(r@) == seq![join_text(old(self).config.lobby, old(self).config.game_type)]
                    &&& final(self).state == old(self).state
                },
                ServerMessage::Go { .. } => {
                    &&& texts(r@) == seq!["{\"tag\":\"GOK\"}"@, "{\"tag\":\"NEXTREADY\"}"@]
                    &&& update_json_post(
                        GameState { is_searching: false, game_active: true, ..old(self).state },
                        final(self).state,
                        *parsed,
                    )
                },
                ServerMessage::Taikyoku { .. } => {
                    &&& texts(r@) == Seq::<Seq<char>>::empty()
                    &&& update_json_post(old(self).state, final(self).state, *parsed)
                },
                ServerMessage::Prof => {
                    &&& texts(r@) == Seq::<Seq<char>>::empty()
                    &&& final(self).state == (GameState { game_active: false, ..old(self).state })
                },
                _ => {
                    &&& update_json_post(old(self).state, final(self).state, *parsed)
                    &&& answers(
                        texts(r@),
                        spec_reaction(raw.spec_bytes(), *parsed),
                        final(self).ai,
                        final(self).state,
                    )
                },
            },
    {
        let mut out: Vec<String> = Vec::new();
        match parsed {
            ServerMessage::Rejoin { .. } => {
                out.push(build_join(self.config.lobby, self.config.game_type));
                assert(texts(out@) =~= seq![join_text(self.config.lobby, self.config.game_type)]);
                out
            },
            ServerMessage::Go { .. } => {
                self.state.is_searching = false;
                self.state.game_active = true;
                out.push(build_gok());
                out.push(build_nextready());
                self.state.update_json(parsed);
                assert(texts(out@) =~= seq!["{\"tag\":\"GOK\"}"@, "{\"tag\":\"NEXTREADY\"}"@]);
                out
            },
            ServerMessage::Taikyoku { .. } => {
                self.state.update_json(parsed);
                assert(texts(out@) =~= Seq::<Seq<char>>::empty());
                out
            },
            ServerMessage::Prof => {
                self.state.game_active = false;
                assert(texts(out@) =~= Seq::<Seq<char>>::empty());
                out
            },
            _ => {
                self.state.update_json(parsed);
                self.process_message(raw, parsed)
            },
        }
    }

    /// The answers to a game message: see `spec_reaction`; for a discard,
    /// the tile the strategy chooses in the current state.
    pub fn process_message(&self, raw: &str, parsed: &ServerMessage) -> (r: Vec<String>)
        ensures
            answers(texts(r@), spec_reaction(raw.spec_bytes(), *parsed), self.ai, self.state),
    {
        let mut out: Vec<String> = Vec::new();
        let reaction = classify_message(raw, parsed);
        match reaction {
            Reaction::Nothing => {
                assert(texts(out@) =~= reply_texts(reaction));
            },
            Reaction::NextReady => {
                out.push(build_nextready());
                assert(texts(out@) =~= reply_texts(reaction));
            },
            Reaction::Tsumo => {
                out.push(build_n(7));
                assert(texts(out@) =~= reply_texts(reaction));
            },
            Reaction::KyushuKyuhai => {
                out.push(build_n(9));
                assert(texts(out@) =~= reply_texts(reaction));
            },
            Reaction::Ron => {
                out.push(build_n(6));
                assert(texts(out@) =~= reply_texts(reaction));
            },
            Reaction::Pass => {
                out.push(build_n(0));
                assert(texts(out@) =~= reply_texts(reaction));
            },
            Reaction::Discard => {
                let discard = self.ai.choose_discard(&self.state);
                out.push(build_discard(discard));
                assert(texts(out@).len() == 1);
                assert(texts(out@)[0] == discard_text(discard));
            },
        }
        out
    }
}

} // verus!
