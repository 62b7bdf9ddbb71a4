//! Shanten number calculation.
//!
//! Uses recursive suit partitioning for optimal mentsu/taatsu counting.
//! Shanten = number of tiles away from tenpai.
//! - Shanten -1 = agari (complete hand)
//! - Shanten 0 = tenpai
//! - Shanten 1 = iishanten

use vstd::prelude::*;
use crate::tile::{Tile136, t136_to_t34};

verus! {

/// The counts of an `i8` table, read as integers.
pub open spec fn ints(s: Seq<i8>) -> Seq<int> {
    s.map_values(|x: i8| x as int)
}

/// Sum of the positive entries of `s[lo..hi]` (negative counts hold no tiles).
pub open spec fn pos_sum(s: Seq<int>, lo: int, hi: int) -> int
    decreases hi - lo,
{
    if lo >= hi {
        0
    } else {
        (if s[lo] > 0 { s[lo] } else { 0 }) + pos_sum(s, lo + 1, hi)
    }
}

/// Lexicographic order on (mentsu, taatsu) pairs: more complete sets first, then more partial ones.
pub open spec fn lex_lt(a: (int, int), b: (int, int)) -> bool {
    a.0 < b.0 || (a.0 == b.0 && a.1 < b.1)
}

pub open spec fn lex_le(a: (int, int), b: (int, int)) -> bool {
    !lex_lt(b, a)
}

pub open spec fn lex_max(a: (int, int), b: (int, int)) -> (int, int) {
    if lex_lt(a, b) { b } else { a }
}

pub open spec fn plus(a: (int, int), dk: int, dt: int) -> (int, int) {
    (a.0 + dk, a.1 + dt)
}

/// Running maximum over the search moves that apply.
pub open spec fn join(m: Option<(int, int)>, v: (int, int)) -> Option<(int, int)> {
    match m {
        Some(x) => Some(lex_max(x, v)),
        None => Some(v),
    }
}

pub open spec fn kou_child(s: Seq<int>, pos: int) -> Seq<int> {
    s.update(pos, s[pos] - 3)
}

pub open spec fn shun_child(s: Seq<int>, pos: int) -> Seq<int> {
    s.update(pos, s[pos] - 1).update(pos + 1, s[pos + 1] - 1).update(pos + 2, s[pos + 2] - 1)
}

pub open spec fn pair_child(s: Seq<int>, pos: int) -> Seq<int> {
    s.update(pos, s[pos] - 2)
}

pub open spec fn adj_child(s: Seq<int>, pos: int) -> Seq<int> {
    s.update(pos, s[pos] - 1).update(pos + 1, s[pos + 1] - 1)
}

pub open spec fn gap_child(s: Seq<int>, pos: int) -> Seq<int> {
    s.update(pos, s[pos] - 1).update(pos + 2, s[pos + 2] - 1)
}

pub open spec fn kou_ok(s: Seq<int>, pos: int) -> bool {
    s[pos] >= 3
}

pub open spec fn shun_ok(s: Seq<int>, pos: int) -> bool {
    pos + 2 < 9 && s[pos] >= 1 && s[pos + 1] >= 1 && s[pos + 2] >= 1
}

pub open spec fn pair_ok(s: Seq<int>, pos: int) -> bool {
    s[pos] >= 2
}

pub open spec fn adj_ok(s: Seq<int>, pos: int) -> bool {
    pos + 1 < 9 && s[pos] >= 1 && s[pos + 1] >= 1
}

pub open spec fn gap_ok(s: Seq<int>, pos: int) -> bool {
    pos + 2 < 9 && s[pos] >= 1 && s[pos + 2] >= 1
}

/// The best (lexicographically largest) number of (complete sets, partial sets)
/// obtainable from `s[pos..9]`, where `s` is the 9 counts of one number suit.
///
/// At the first non-empty position the search may take a triplet or a run
/// starting there (and stay), or take a pair, an adjacent pair, a one-gap pair
/// starting there, or drop the remaining copies (and move on); in each of the
/// partial-set moves the copies left at that position are dropped.
#[verifier::opaque]
pub open spec fn suit_best(s: Seq<int>, pos: int) -> (int, int)
    decreases 9 - pos, s[pos],
{
    if pos < 0 || pos >= 9 || s.len() != 9 {
        (0, 0)
    } else if s[pos] == 0 {
        suit_best(s, pos + 1)
    } else {
        let m1 = if kou_ok(s, pos) {
            join(None, plus(suit_best(kou_child(s, pos), pos), 1, 0))
        } else {
            None
        };
        let m2 = if shun_ok(s, pos) {
            join(m1, plus(suit_best(shun_child(s, pos), pos), 1, 0))
        } else {
            m1
        };
        let m3 = if pair_ok(s, pos) {
            join(m2, plus(suit_best(pair_child(s, pos), pos + 1), 0, 1))
        } else {
            m2
        };
        let m4 = if adj_ok(s, pos) {
            join(m3, plus(suit_best(adj_child(s, pos), pos + 1), 0, 1))
        } else {
            m3
        };
        let m5 = if gap_ok(s, pos) {
            join(m4, plus(suit_best(gap_child(s, pos), pos + 1), 0, 1))
        } else {
            m4
        };
        join(m5, suit_best(s.update(pos, 0), pos + 1))->0
    }
}

spec fn stage1(s: Seq<int>, pos: int) -> Option<(int, int)> {
    if kou_ok(s, pos) {
        join(None, plus(suit_best(kou_child(s, pos), pos), 1, 0))
    } else {
        None
    }
}

spec fn stage2(s: Seq<int>, pos: int) -> Option<(int, int)> {
    if shun_ok(s, pos) {
        join(stage1(s, pos), plus(suit_best(shun_child(s, pos), pos), 1, 0))
    } else {
        stage1(s, pos)
    }
}

spec fn stage3(s: Seq<int>, pos: int) -> Option<(int, int)> {
    if pair_ok(s, pos) {
        join(stage2(s, pos), plus(suit_best(pair_child(s, pos), pos + 1), 0, 1))
    } else {
        stage2(s, pos)
    }
}

spec fn stage4(s: Seq<int>, pos: int) -> Option<(int, int)> {
    if adj_ok(s, pos) {
        join(stage3(s, pos), plus(suit_best(adj_child(s, pos), pos + 1), 0, 1))
    } else {
        stage3(s, pos)
    }
}

spec fn stage5(s: Seq<int>, pos: int) -> Option<(int, int)> {
    if gap_ok(s, pos) {
        join(stage4(s, pos), plus(suit_best(gap_child(s, pos), pos + 1), 0, 1))
    } else {
        stage4(s, pos)
    }
}

proof fn lemma_suit_best_unfold(s: Seq<int>, pos: int)
    requires
        0 <= pos < 9,
        s.len() == 9,
    ensures
        s[pos] == 0 ==> suit_best(s, pos) == suit_best(s, pos + 1),
        s[pos] != 0 ==> suit_best(s, pos) == join(stage5(s, pos), suit_best(s.update(pos, 0), pos + 1))->0,
{
    reveal_with_fuel(suit_best, 1);
}

proof fn lemma_pos_sum_update(s: Seq<int>, lo: int, hi: int, q: int, v: int)
    requires
        0 <= lo,
        hi <= s.len(),
        0 <= q < s.len(),
    ensures
        pos_sum(s.update(q, v), lo, hi) == pos_sum(s, lo, hi) + (if lo <= q < hi {
            (if v > 0 { v } else { 0 }) - (if s[q] > 0 { s[q] } else { 0 })
        } else {
            0
        }),
    decreases hi - lo,
{
    if lo < hi {
        lemma_pos_sum_update(s, lo + 1, hi, q, v);
    }
}

proof fn lemma_pos_sum_nonneg(s: Seq<int>, lo: int, hi: int)
    ensures
        pos_sum(s, lo, hi) >= 0,
    decreases hi - lo,
{
    if lo < hi {
        lemma_pos_sum_nonneg(s, lo + 1, hi);
    }
}

/// What `suit_search` guarantees of each outcome it records.
spec fn outcome_ok(e: (i8, i8), k: int, t: int, budget: int, best: (int, int)) -> bool {
    &&& k <= e.0
    &&& t <= e.1
    &&& 3 * e.0 + 2 * e.1 <= budget
    &&& lex_le((e.0 as int, e.1 as int), best)
}

#[verifier::opaque]
spec fn all_ok(r: Seq<(i8, i8)>, from: int, to: int, k: int, t: int, budget: int, best: (int, int)) -> bool {
    forall|j: int| from <= j < to ==> outcome_ok(#[trigger] r[j], k, t, budget, best)
}

#[verifier::opaque]
spec fn attains(r: Seq<(i8, i8)>, from: int, to: int, v: (int, int)) -> bool {
    exists|j: int| from <= j < to && (#[trigger] r[j]).0 == v.0 && r[j].1 == v.1
}

/// Folds the outcomes of one more search move into the running maximum
/// (`m` and `crel` are relative to the offsets `k`, `t`).
proof fn lemma_step(
    old_r: Seq<(i8, i8)>,
    new_r: Seq<(i8, i8)>,
    start: int,
    k: int,
    t: int,
    budget: int,
    m: Option<(int, int)>,
    ck: int,
    ct: int,
    cbudget: int,
    crel: (int, int),
)
    requires
        0 <= start <= old_r.len(),
        new_r.len() > old_r.len(),
        new_r.subrange(0, old_r.len() as int) == old_r,
        m is None ==> start == old_r.len(),
        m is Some ==> all_ok(old_r, start, old_r.len() as int, k, t, budget, plus(m->0, k, t))
            && attains(old_r, start, old_r.len() as int, plus(m->0, k, t)),
        all_ok(new_r, old_r.len() as int, new_r.len() as int, ck, ct, cbudget, plus(crel, k, t)),
        attains(new_r, old_r.len() as int, new_r.len() as int, plus(crel, k, t)),
        k <= ck,
        t <= ct,
        cbudget <= budget,
    ensures
        all_ok(new_r, start, new_r.len() as int, k, t, budget, plus(join(m, crel)->0, k, t)),
        attains(new_r, start, new_r.len() as int, plus(join(m, crel)->0, k, t)),
{
    reveal(all_ok);
    reveal(attains);
    let mid = old_r.len() as int;
    let m2 = plus(join(m, crel)->0, k, t);
    assert forall|j: int| start <= j < new_r.len() implies outcome_ok(
        #[trigger] new_r[j],
        k,
        t,
        budget,
        m2,
    ) by {
        if j < mid {
            assert(new_r.subrange(0, mid)[j] == new_r[j]);
        }
    }
    if m is Some && lex_lt(crel, m->0) {
        let w = plus(m->0, k, t);
        let j = choose|j: int| start <= j < mid && (#[trigger] old_r[j]).0 == w.0 && old_r[j].1 == w.1;
        assert(new_r.subrange(0, mid)[j] == new_r[j]);
    }
}

/// Depth-first search over one suit, recording every (complete, partial) outcome reached.
#[verifier::spinoff_prover]
fn suit_search(suit: &[i8; 9], pos: usize, k: i8, t: i8, results: &mut Vec<(i8, i8)>)
    requires
        pos <= 9,
        0 <= k,
        0 <= t,
        3 * k + pos_sum(ints(suit@), pos as int, 9) <= 383,
        2 * t + pos_sum(ints(suit@), pos as int, 9) <= 255,
    ensures
        final(results)@.len() > old(results)@.len(),
        final(results)@.subrange(0, old(results)@.len() as int) == old(results)@,
        exists|j: int|
            old(results)@.len() <= j < final(results)@.len() && #[trigger] final(results)@[j] == (k, t),
        all_ok(
            final(results)@,
            old(results)@.len() as int,
            final(results)@.len() as int,
            k as int,
            t as int,
            3 * k + 2 * t + pos_sum(ints(suit@), pos as int, 9),
            plus(suit_best(ints(suit@), pos as int), k as int, t as int),
        ),
        attains(
            final(results)@,
            old(results)@.len() as int,
            final(results)@.len() as int,
            plus(suit_best(ints(suit@), pos as int), k as int, t as int),
        ),
    decreases 9 - pos, suit[pos as int],
{
    let ghost s = ints(suit@);
    let ghost p = pos as int;
    let ghost start = results@.len() as int;
    let ghost budget = 3 * k + 2 * t + pos_sum(s, p, 9);
    proof {
        lemma_pos_sum_nonneg(s, p, 9);
    }
    if pos >= 9 {
        results.push((k, t));
        proof {
            reveal_with_fuel(suit_best, 1);
            reveal(all_ok);
            reveal(attains);
            assert(results@[start] == (k, t));
            assert(results@.subrange(0, start) =~= old(results)@);
        }
        return ;
    }
    proof {
        lemma_pos_sum_nonneg(s, p + 1, 9);
        lemma_suit_best_unfold(s, p);
    }
    if suit[pos] == 0 {
        suit_search(suit, pos + 1, k, t, results);
        return ;
    }
    assert(s[p] == suit@[p] as int);
    assert(pos_sum(s, p, 9) == (if s[p] > 0 { s[p] } else { 0 }) + pos_sum(s, p + 1, 9));
    let ghost mut m: Option<(int, int)> = None;
    // 1. Koutsu

    if suit[pos] >= 3 {
        let mut s2 = *suit;
        s2[pos] = s2[pos] - 3;
        assert(ints(s2@) =~= kou_child(s, p));
        proof {
            lemma_pos_sum_update(s, p, 9, p, s[p] - 3);
        }
        proof {
            lemma_pos_sum_nonneg(ints(s2@), p, 9);
            lemma_pos_sum_nonneg(ints(s2@), p + 1, 9);
        }
        let ghost before = results@;
        suit_search(&s2, pos, k + 1, t, results);
        proof {
            lemma_step(
                before,
                results@,
                start,
                k as int,
                t as int,
                budget,
                m,
                k + 1,
                t as int,
                3 * (k + 1) + 2 * t + pos_sum(ints(s2@), p, 9),
                plus(suit_best(kou_child(s, p), p), 1, 0),
            );
            m = join(m, plus(suit_best(kou_child(s, p), p), 1, 0));
        }
    }
    assert(m == stage1(s, p));
    // 2. Shuntsu

    if pos + 2 < 9 && suit[pos] >= 1 && suit[pos + 1] >= 1 && suit[pos + 2] >= 1 {
        let mut s2 = *suit;
        s2[pos] = s2[pos] - 1;
        s2[pos + 1] = s2[pos + 1] - 1;
        s2[pos + 2] = s2[pos + 2] - 1;
        let ghost s1 = s.update(p, s[p] - 1);
        let ghost s1b = s1.update(p + 1, s[p + 1] - 1);
        assert(ints(s2@) =~= shun_child(s, p));
        proof {
            lemma_pos_sum_update(s, p, 9, p, s[p] - 1);
            lemma_pos_sum_update(s1, p, 9, p + 1, s[p + 1] - 1);
            lemma_pos_sum_update(s1b, p, 9, p + 2, s[p + 2] - 1);
        }
        proof {
            lemma_pos_sum_nonneg(ints(s2@), p, 9);
            lemma_pos_sum_nonneg(ints(s2@), p + 1, 9);
        }
        let ghost before = results@;
        suit_search(&s2, pos, k + 1, t, results);
        proof {
            lemma_step(
                before,
                results@,
                start,
                k as int,
                t as int,
                budget,
                m,
                k + 1,
                t as int,
                3 * (k + 1) + 2 * t + pos_sum(ints(s2@), p, 9),
                plus(suit_best(shun_child(s, p), p), 1, 0),
            );
            m = join(m, plus(suit_best(shun_child(s, p), p), 1, 0));
        }
    }
    assert(m == stage2(s, p));
    // 3. Pair (taatsu)

    if suit[pos] >= 2 {
        let mut s2 = *suit;
        s2[pos] = s2[pos] - 2;
        assert(ints(s2@) =~= pair_child(s, p));
        proof {
            lemma_pos_sum_update(s, p + 1, 9, p, s[p] - 2);
        }
        proof {
            lemma_pos_sum_nonneg(ints(s2@), p, 9);
            lemma_pos_sum_nonneg(ints(s2@), p + 1, 9);
        }
        let ghost before = results@;
        suit_search(&s2, pos + 1, k, t + 1, results);
        proof {
            lemma_step(
                before,
                results@,
                start,
                k as int,
                t as int,
                budget,
                m,
                k as int,
                t + 1,
                3 * k + 2 * (t + 1) + pos_sum(ints(s2@), p + 1, 9),
                plus(suit_best(pair_child(s, p), p + 1), 0, 1),
            );
            m = join(m, plus(suit_best(pair_child(s, p), p + 1), 0, 1));
        }
    }
    assert(m == stage3(s, p));
    // 4. Adjacent taatsu (ryanmen/kanchan)

    if pos + 1 < 9 && suit[pos] >= 1 && suit[pos + 1] >= 1 {
        let mut s2 = *suit;
        s2[pos] = s2[pos] - 1;
        s2[pos + 1] = s2[pos + 1] - 1;
        let ghost s1 = s.update(p, s[p] - 1);
        assert(ints(s2@) =~= adj_child(s, p));
        proof {
            lemma_pos_sum_update(s, p + 1, 9, p, s[p] - 1);
            lemma_pos_sum_update(s1, p + 1, 9, p + 1, s[p + 1] - 1);
        }
        proof {
            lemma_pos_sum_nonneg(ints(s2@), p, 9);
            lemma_pos_sum_nonneg(ints(s2@), p + 1, 9);
        }
        let ghost before = results@;
        suit_search(&s2, pos + 1, k, t + 1, results);
        proof {
            lemma_step(
                before,
                results@,
                start,
                k as int,
                t as int,
                budget,
                m,
                k as int,
                t + 1,
                3 * k + 2 * (t + 1) + pos_sum(ints(s2@), p + 1, 9),
                plus(suit_best(adj_child(s, p), p + 1), 0, 1),
            );
            m = join(m, plus(suit_best(adj_child(s, p), p + 1), 0, 1));
        }
    }
    assert(m == stage4(s, p));
    // 5. Gap taatsu (e.g. 4-6)

    if pos + 2 < 9 && suit[pos] >= 1 && suit[pos + 2] >= 1 {
        let mut s2 = *suit;
        s2[pos] = s2[pos] - 1;
        s2[pos + 2] = s2[pos + 2] - 1;
        let ghost s1 = s.update(p, s[p] - 1);
        assert(ints(s2@) =~= gap_child(s, p));
        proof {
            lemma_pos_sum_update(s, p + 1, 9, p, s[p] - 1);
            lemma_pos_sum_update(s1, p + 1, 9, p + 2, s[p + 2] - 1);
        }
        proof {
            lemma_pos_sum_nonneg(ints(s2@), p, 9);
            lemma_pos_sum_nonneg(ints(s2@), p + 1, 9);
        }
        let ghost before = results@;
        suit_search(&s2, pos + 1, k, t + 1, results);
        proof {
            lemma_step(
                before,
                results@,
                start,
                k as int,
                t as int,
                budget,
                m,
                k as int,
                t + 1,
                3 * k + 2 * (t + 1) + pos_sum(ints(s2@), p + 1, 9),
                plus(suit_best(gap_child(s, p), p + 1), 0, 1),
            );
            m = join(m, plus(suit_best(gap_child(s, p), p + 1), 0, 1));
        }
    }
    assert(m == stage5(s, p));
    // 6. Skip (isolated tile, no contribution)

    let mut s2 = *suit;
    s2[pos] = 0;
    assert(ints(s2@) =~= s.update(p, 0));
    proof {
        lemma_pos_sum_update(s, p + 1, 9, p, 0);
    }
    let ghost before = results@;
    suit_search(&s2, pos + 1, k, t, results);
    proof {
        lemma_step(
            before,
            results@,
            start,
            k as int,
            t as int,
            budget,
            m,
            k as int,
            t as int,
            3 * k + 2 * t + pos_sum(ints(s2@), p + 1, 9),
            suit_best(s.update(p, 0), p + 1),
        );
        assert(results@.subrange(0, start) =~= old(results)@);
        let j = choose|j: int| before.len() <= j < results@.len() && #[trigger] results@[j] == (k, t);
        assert(start <= before.len());
    }
}

proof fn lemma_pos_sum_split(s: Seq<int>, a: int, b: int, d: int)
    requires
        a <= b <= d,
    ensures
        pos_sum(s, a, d) == pos_sum(s, a, b) + pos_sum(s, b, d),
    decreases b - a,
{
    if a < b {
        lemma_pos_sum_split(s, a + 1, b, d);
    }
}

proof fn lemma_pos_sum_subrange(s: Seq<int>, a: int, n: int, lo: int, hi: int)
    requires
        0 <= a,
        a + n <= s.len(),
        0 <= lo,
        hi <= n,
    ensures
        pos_sum(s.subrange(a, a + n), lo, hi) == pos_sum(s, a + lo, a + hi),
    decreases hi - lo,
{
    if lo < hi {
        lemma_pos_sum_subrange(s, a, n, lo + 1, hi);
    }
}

/// All Pareto-optimal (complete, partial) outcomes for a 9-tile suit.
fn best_suit_partition(suit: &[i8; 9]) -> (optimal: Vec<(i8, i8)>)
    requires
        pos_sum(ints(suit@), 0, 9) <= 254,
    ensures
        optimal@.len() > 0,
        all_ok(optimal@, 0, optimal@.len() as int, 0, 0, pos_sum(ints(suit@), 0, 9), suit_best(ints(suit@), 0)),
        attains(optimal@, 0, optimal@.len() as int, suit_best(ints(suit@), 0)),
{
    let ghost s = ints(suit@);
    let ghost best = suit_best(s, 0);
    let ghost budget = pos_sum(s, 0, 9);
    let mut results: Vec<(i8, i8)> = Vec::new();
    suit_search(suit, 0, 0, 0, &mut results);
    assert(plus(suit_best(s, 0), 0, 0) == best);
    proof {
        reveal(all_ok);
        reveal(attains);
    }
    let ghost jb = choose|j: int| 0 <= j < results@.len() && (#[trigger] results@[j]).0 == best.0 && results@[j].1 == best.1;
    // Keep the outcomes that no other outcome dominates, each once.
    let mut optimal: Vec<(i8, i8)> = Vec::new();
    let n = results.len();
    let mut i: usize = 0;
    while i < n
        invariant
            n == results@.len(),
            0 <= jb < n,
            results@[jb].0 == best.0,
            results@[jb].1 == best.1,
            i <= n,
            forall|j: int| 0 <= j < n ==> outcome_ok(#[trigger] results@[j], 0, 0, budget, best),
            forall|j: int| 0 <= j < optimal@.len() ==> outcome_ok(#[trigger] optimal@[j], 0, 0, budget, best),
            i > jb ==> exists|j: int| 0 <= j < optimal@.len() && (#[trigger] optimal@[j]) == results@[jb],
        decreases n - i,
    {
        let r = results[i];
        let mut dominated = false;
        let mut j: usize = 0;
        while j < n
            invariant
                n == results@.len(),
                j <= n,
                r == results@[i as int],
                i < n,
                0 <= jb < n,
                i == jb ==> !dominated,
                forall|j: int| 0 <= j < n ==> outcome_ok(#[trigger] results@[j], 0, 0, budget, best),
                results@[jb].0 == best.0,
                results@[jb].1 == best.1,
            decreases n - j,
        {
            let o = results[j];
            if o.0 >= r.0 && o.1 >= r.1 && (o.0 != r.0 || o.1 != r.1) {
                assert(outcome_ok(results@[j as int], 0, 0, budget, best));
                dominated = true;
            }
            j = j + 1;
        }
        let mut present = false;
        let mut q: usize = 0;
        while q < optimal.len()
            invariant
                q <= optimal@.len(),
                present ==> exists|j: int| 0 <= j < optimal@.len() && (#[trigger] optimal@[j]) == r,
            decreases optimal@.len() - q,
        {
            if optimal[q].0 == r.0 && optimal[q].1 == r.1 {
                assert(optimal@[q as int] == r);
                present = true;
            }
            q = q + 1;
        }
        let ghost old_opt = optimal@;
        if !dominated && !present {
            optimal.push(r);
            assert(optimal@[optimal@.len() - 1] == r);
        }
        proof {
            if i > jb {
                let j0 = choose|j: int| 0 <= j < old_opt.len() && (#[trigger] old_opt[j]) == results@[jb];
                assert(optimal@[j0] == results@[jb]);
            } else if i == jb && present {
                let j0 = choose|j: int| 0 <= j < old_opt.len() && (#[trigger] old_opt[j]) == r;
                assert(optimal@[j0] == results@[jb]);
            } else if i == jb {
                assert(optimal@[optimal@.len() - 1] == results@[jb]);
            }
        }
        i = i + 1;
    }
    if optimal.len() == 0 {
        optimal.push((0, 0));
    }
    proof {
        let j0 = choose|j: int| 0 <= j < optimal@.len() && (#[trigger] optimal@[j]) == results@[jb];
        assert(optimal@[j0].0 == best.0);
    }
    optimal
}

fn to_suit(counts: &[i8; 34], start: usize) -> (suit: [i8; 9])
    requires
        start + 9 <= 34,
    ensures
        ints(suit@) == ints(counts@).subrange(start as int, start + 9),
{
    let mut suit = [0i8; 9];
    let mut i: usize = 0;
    while i < 9
        invariant
            start + 9 <= 34,
            i <= 9,
            forall|j: int| 0 <= j < i ==> suit@[j] == counts@[start + j],
        decreases 9 - i,
    {
        suit[i] = counts[start + i];
        i = i + 1;
    }
    assert(ints(suit@) =~= ints(counts@).subrange(start as int, start + 9));
    suit
}

/// Complete (triplet or quad) and partial (pair) honor sets in `c[lo..34]`.
pub open spec fn honor_sets(c: Seq<int>, lo: int) -> (int, int)
    decreases 34 - lo,
{
    if lo >= 34 {
        (0, 0)
    } else {
        let rest = honor_sets(c, lo + 1);
        if c[lo] == 3 || c[lo] == 4 {
            (rest.0 + 1, rest.1)
        } else if c[lo] == 2 {
            (rest.0, rest.1 + 1)
        } else {
            rest
        }
    }
}

proof fn lemma_honor_sets_bound(c: Seq<int>, lo: int)
    requires
        lo <= 34,
    ensures
        0 <= honor_sets(c, lo).0 <= 34 - lo,
        0 <= honor_sets(c, lo).1 <= 34 - lo,
        3 * honor_sets(c, lo).0 + 2 * honor_sets(c, lo).1 <= pos_sum(c, lo, 34),
    decreases 34 - lo,
{
    if lo < 34 {
        lemma_honor_sets_bound(c, lo + 1);
    }
}

fn honor_counts(counts: &[i8; 34]) -> (r: (i8, i8))
    ensures
        r.0 == honor_sets(ints(counts@), 27).0,
        r.1 == honor_sets(ints(counts@), 27).1,
{
    let ghost c = ints(counts@);
    let mut k: i8 = 0;
    let mut t: i8 = 0;
    let mut i: usize = 34;
    while i > 27
        invariant
            27 <= i <= 34,
            c == ints(counts@),
            k == honor_sets(c, i as int).0,
            t == honor_sets(c, i as int).1,
        decreases i,
    {
        i = i - 1;
        proof {
            lemma_honor_sets_bound(c, i + 1);
            assert(c[i as int] == counts[i as int]);
        }
        match counts[i] {
            3 | 4 => k += 1,
            2 => t += 1,
            _ => {},
        }
    }
    (k, t)
}

/// The best (complete sets, partial sets) for a whole hand: the three number
/// suits searched separately, plus the honor triplets and pairs.
pub open spec fn best_partition(c: Seq<int>) -> (int, int) {
    let m = suit_best(c.subrange(0, 9), 0);
    let p = suit_best(c.subrange(9, 18), 0);
    let s = suit_best(c.subrange(18, 27), 0);
    let h = honor_sets(c, 27);
    (m.0 + p.0 + s.0 + h.0, m.1 + p.1 + s.1 + h.1)
}

/// Count best (k complete mentsu, t partial mentsu) from tiles.
#[verifier::rlimit(30)]
fn count_best_partition(counts: &[i8; 34]) -> (r: (i8, i8))
    requires
        pos_sum(ints(counts@), 0, 34) <= 200,
    ensures
        r.0 == best_partition(ints(counts@)).0,
        r.1 == best_partition(ints(counts@)).1,
        0 <= r.0,
        0 <= r.1,
        3 * r.0 + 2 * r.1 <= pos_sum(ints(counts@), 0, 34),
{
    let ghost c = ints(counts@);
    proof {
        assert(c.len() == 34);
        lemma_pos_sum_split(c, 0, 9, 34);
        lemma_pos_sum_split(c, 9, 18, 34);
        lemma_pos_sum_split(c, 18, 27, 34);
        lemma_pos_sum_subrange(c, 0, 9, 0, 9);
        lemma_pos_sum_subrange(c, 9, 9, 0, 9);
        lemma_pos_sum_subrange(c, 18, 9, 0, 9);
        lemma_pos_sum_nonneg(c, 0, 9);
        lemma_pos_sum_nonneg(c, 9, 18);
        lemma_pos_sum_nonneg(c, 18, 27);
        lemma_pos_sum_nonneg(c, 27, 34);
        lemma_honor_sets_bound(c, 27);
    }
    let man_suit = to_suit(counts, 0);
    let pin_suit = to_suit(counts, 9);
    let sou_suit = to_suit(counts, 18);
    let man = best_suit_partition(&man_suit);
    let pin = best_suit_partition(&pin_suit);
    let sou = best_suit_partition(&sou_suit);
    let (hk, ht) = honor_counts(counts);
    let ghost bm = suit_best(c.subrange(0, 9), 0);
    let ghost bp = suit_best(c.subrange(9, 18), 0);
    let ghost bs = suit_best(c.subrange(18, 27), 0);
    let ghost sm = pos_sum(c, 0, 9);
    let ghost sp = pos_sum(c, 9, 18);
    let ghost ss = pos_sum(c, 18, 27);
    let ghost total = best_partition(c);
    proof {
        reveal(all_ok);
        reveal(attains);
    }
    let ghost im = choose|j: int| 0 <= j < man@.len() && (#[trigger] man@[j]).0 == bm.0 && man@[j].1 == bm.1;
    let ghost ip = choose|j: int| 0 <= j < pin@.len() && (#[trigger] pin@[j]).0 == bp.0 && pin@[j].1 == bp.1;
    let ghost is = choose|j: int| 0 <= j < sou@.len() && (#[trigger] sou@[j]).0 == bs.0 && sou@[j].1 == bs.1;
    let mut best_k: i8 = 0;
    let mut best_t: i8 = 0;
    let mut a: usize = 0;
    while a < man.len()
        invariant
            forall|j: int| 0 <= j < man@.len() ==> outcome_ok(#[trigger] man@[j], 0, 0, sm, bm),
            forall|j: int| 0 <= j < pin@.len() ==> outcome_ok(#[trigger] pin@[j], 0, 0, sp, bp),
            forall|j: int| 0 <= j < sou@.len() ==> outcome_ok(#[trigger] sou@[j], 0, 0, ss, bs),
            0 <= im < man@.len(),
            0 <= ip < pin@.len(),
            0 <= is < sou@.len(),
            man@[im].0 == bm.0 && man@[im].1 == bm.1,
            pin@[ip].0 == bp.0 && pin@[ip].1 == bp.1,
            sou@[is].0 == bs.0 && sou@[is].1 == bs.1,
            hk == honor_sets(c, 27).0,
            ht == honor_sets(c, 27).1,
            0 <= hk && 0 <= ht && 3 * hk + 2 * ht <= pos_sum(c, 27, 34),
            sm + sp + ss + pos_sum(c, 27, 34) <= 200,
            total == (bm.0 + bp.0 + bs.0 + hk, bm.1 + bp.1 + bs.1 + ht),
            a <= man@.len(),
            0 <= best_k,
            0 <= best_t,
            lex_le((best_k as int, best_t as int), total),
            a > im ==> best_k == total.0 && best_t == total.1,
        decreases man@.len() - a,
    {
        let (mk, mt) = man[a];
        assert(outcome_ok(man@[a as int], 0, 0, sm, bm));
        let mut b: usize = 0;
        while b < pin.len()
            invariant
                forall|j: int| 0 <= j < pin@.len() ==> outcome_ok(#[trigger] pin@[j], 0, 0, sp, bp),
                forall|j: int| 0 <= j < sou@.len() ==> outcome_ok(#[trigger] sou@[j], 0, 0, ss, bs),
                0 <= ip < pin@.len(),
                0 <= is < sou@.len(),
                pin@[ip].0 == bp.0 && pin@[ip].1 == bp.1,
                sou@[is].0 == bs.0 && sou@[is].1 == bs.1,
                0 <= hk && 0 <= ht && 3 * hk + 2 * ht <= pos_sum(c, 27, 34),
                sm + sp + ss + pos_sum(c, 27, 34) <= 200,
                total == (bm.0 + bp.0 + bs.0 + hk, bm.1 + bp.1 + bs.1 + ht),
                outcome_ok((mk, mt), 0, 0, sm, bm),
                a == im ==> mk == bm.0 && mt == bm.1,
                b <= pin@.len(),
                0 <= best_k,
                0 <= best_t,
                lex_le((best_k as int, best_t as int), total),
                (a > im || (a == im && b > ip)) ==> best_k == total.0 && best_t == total.1,
            decreases pin@.len() - b,
        {
            let (pk, pt) = pin[b];
            assert(outcome_ok(pin@[b as int], 0, 0, sp, bp));
            let mut d: usize = 0;
            while d < sou.len()
                invariant
                    forall|j: int| 0 <= j < sou@.len() ==> outcome_ok(#[trigger] sou@[j], 0, 0, ss, bs),
                    0 <= is < sou@.len(),
                    sou@[is].0 == bs.0 && sou@[is].1 == bs.1,
                    0 <= hk && 0 <= ht && 3 * hk + 2 * ht <= pos_sum(c, 27, 34),
                    sm + sp + ss + pos_sum(c, 27, 34) <= 200,
                    total == (bm.0 + bp.0 + bs.0 + hk, bm.1 + bp.1 + bs.1 + ht),
                    outcome_ok((mk, mt), 0, 0, sm, bm),
                    outcome_ok((pk, pt), 0, 0, sp, bp),
                    a == im ==> mk == bm.0 && mt == bm.1,
                    b == ip ==> pk == bp.0 && pt == bp.1,
                    d <= sou@.len(),
                    0 <= best_k,
                    0 <= best_t,
                    lex_le((best_k as int, best_t as int), total),
                    (a > im || (a == im && b > ip) || (a == im && b == ip && d > is)) ==> best_k
                        == total.0 && best_t == total.1,
                decreases sou@.len() - d,
            {
                let (sk, st) = sou[d];
                assert(outcome_ok(sou@[d as int], 0, 0, ss, bs));
                let k = mk + pk + sk + hk;
                let t = mt + pt + st + ht;
                if k > best_k || (k == best_k && t > best_t) {
                    best_k = k;
                    best_t = t;
                }
                d = d + 1;
            }
            b = b + 1;
        }
        a = a + 1;
    }
    (best_k, best_t)
}

const MENTSU_TARGET: i8 = 4;

/// Partial sets beyond the sets still missing do not count.
fn cap_partials(k: i8, t: i8) -> (r: i8)
    requires
        k >= 0,
    ensures
        r == counted_partials(k as int, t as int),
{
    let room: i8 = if k < MENTSU_TARGET { MENTSU_TARGET - k } else { 0 };
    if t > room { room } else { t }
}

/// Partial sets that count toward a hand of four sets: at most as many as
/// sets are still missing.
pub open spec fn counted_partials(k: int, t: int) -> int {
    let room = if k < 4 { 4 - k } else { 0 };
    if t > room { room } else { t }
}

/// Shanten with the pair fixed on tile type `i` (two copies of `i` removed).
pub open spec fn head_value(c: Seq<int>, i: int) -> int {
    let kt = best_partition(c.update(i, c[i] - 2));
    2 * (4 - kt.0) - counted_partials(kt.0, kt.1) - 1
}

/// Shanten with no pair fixed in advance.
pub open spec fn no_head_value(c: Seq<int>) -> int {
    let kt = best_partition(c);
    2 * (5 - kt.0) - counted_partials(kt.0, kt.1) - 2
}

/// The least of the no-pair value and the values of each pair choice among the first `n` types.
pub open spec fn normal_upto(c: Seq<int>, n: int) -> int
    decreases n,
{
    if n <= 0 {
        no_head_value(c)
    } else if c[n - 1] >= 2 {
        min(normal_upto(c, n - 1), head_value(c, n - 1))
    } else {
        normal_upto(c, n - 1)
    }
}

/// Standard-form shanten (four sets and a pair) of the count table `c`.
pub open spec fn spec_normal_shanten(c: Seq<int>) -> int {
    normal_upto(c, 34)
}

pub open spec fn min(a: int, b: int) -> int {
    if a <= b { a } else { b }
}

/// Calculate normal shanten for a hand given as 34 tile counts.
///
/// Requires at most 200 tiles in all (negative counts hold none), which keeps
/// every intermediate value of the search within `i8`.
pub fn normal_shanten(counts: &[i8; 34]) -> (r: i8)
    requires
        pos_sum(ints(counts@), 0, 34) <= 200,
    ensures
        r == spec_normal_shanten(ints(counts@)),
{
    let ghost c = ints(counts@);
    let mut best = 99i8;
    let mut i: usize = 0;
    proof {
        let kt = best_partition(c);
    }
    let (k0, t0) = count_best_partition(counts);
    let ghost nh = no_head_value(c);
    while i < 34
        invariant
            c == ints(counts@),
            i <= 34,
            pos_sum(c, 0, 34) <= 200,
            nh == no_head_value(c),
            nh <= 8,
            min(best as int, nh) == normal_upto(c, i as int),
            -126 <= best <= 99,
        decreases 34 - i,
    {
        if counts[i] >= 2 {
            let mut cc = *counts;
            cc[i] = cc[i] - 2;
            assert(ints(cc@) =~= c.update(i as int, c[i as int] - 2));
            proof {
                lemma_pos_sum_update(c, 0, 34, i as int, c[i as int] - 2);
            }
            let (k, t) = count_best_partition(&cc);
            let t = cap_partials(k, t);
            let s = 2 * (MENTSU_TARGET - k) - t - 1;
            assert(s == head_value(c, i as int));
            if s < best {
                best = s;
            }
        }
        i = i + 1;
    }
    let t0 = cap_partials(k0, t0);
    let s = 2 * (MENTSU_TARGET + 1 - k0) - t0 - 2;
    if s < best {
        best = s;
    }
    best
}

/// Number of tile types among the first `n` held at least twice.
pub open spec fn pair_kinds(c: Seq<int>, n: int) -> int
    decreases n,
{
    if n <= 0 {
        0
    } else {
        pair_kinds(c, n - 1) + (if c[n - 1] >= 2 { 1int } else { 0int })
    }
}

/// Seven-pairs shanten: six minus the number of types held at least twice.
pub open spec fn spec_chiitoitsu_shanten(c: Seq<int>) -> int {
    6 - pair_kinds(c, 34)
}

/// Chiitoitsu shanten.
pub fn chiitoitsu_shanten(counts: &[i8; 34]) -> (r: i8)
    ensures
        r == spec_chiitoitsu_shanten(ints(counts@)),
{
    let ghost c = ints(counts@);
    let mut pairs: i8 = 0;
    let mut i: usize = 0;
    while i < 34
        invariant
            c == ints(counts@),
            i <= 34,
            pairs == pair_kinds(c, i as int),
            0 <= pairs <= i,
        decreases 34 - i,
    {
        assert(c[i as int] == counts[i as int]);
        if counts[i] >= 2 {
            pairs = pairs + 1;
        }
        i = i + 1;
    }
    6 - pairs
}

/// The terminal and honor tile types, in the order they are examined for kokushi.
pub open spec fn kokushi_index(j: int) -> int {
    seq![0int, 8, 9, 17, 18, 26, 27, 28, 29, 30, 31, 32, 33][j]
}

/// Number of the first `n` terminal/honor types that are held (count not zero).
pub open spec fn kokushi_unique(c: Seq<int>, n: int) -> int
    decreases n,
{
    if n <= 0 {
        0
    } else {
        kokushi_unique(c, n - 1) + (if c[kokushi_index(n - 1)] != 0 { 1int } else { 0int })
    }
}

/// Whether one of the first `n` terminal/honor types has a count other than 0 or 1.
pub open spec fn kokushi_pair(c: Seq<int>, n: int) -> bool
    decreases n,
{
    if n <= 0 {
        false
    } else {
        kokushi_pair(c, n - 1) || (c[kokushi_index(n - 1)] != 0 && c[kokushi_index(n - 1)] != 1)
    }
}

/// Thirteen-orphans shanten.
pub open spec fn spec_kokushi_shanten(c: Seq<int>) -> int {
    13 - kokushi_unique(c, 13) - (if kokushi_pair(c, 13) { 1int } else { 0int })
}

/// Kokushi musou shanten.
pub fn kokushi_shanten(counts: &[i8; 34]) -> (r: i8)
    ensures
        r == spec_kokushi_shanten(ints(counts@)),
{
    let ghost c = ints(counts@);
    let yaochuu: [usize; 13] = [0, 8, 9, 17, 18, 26, 27, 28, 29, 30, 31, 32, 33];
    let mut unique = 0i8;
    let mut has_pair = false;
    let mut j: usize = 0;
    while j < 13
        invariant
            c == ints(counts@),
            j <= 13,
            forall|q: int| 0 <= q < 13 ==> #[trigger] yaochuu@[q] == kokushi_index(q),
            unique == kokushi_unique(c, j as int),
            has_pair == kokushi_pair(c, j as int),
            0 <= unique <= j,
        decreases 13 - j,
    {
        let idx = yaochuu[j];
        assert(idx == kokushi_index(j as int));
        assert(c[idx as int] == counts[idx as int]);
        match counts[idx] {
            0 => {},
            1 => unique += 1,
            _ => {
                unique += 1;
                has_pair = true;
            },
        }
        j = j + 1;
    }
    13 - unique - if has_pair {
        1
    } else {
        0
    }
}

/// Number of tiles in `h` whose type (`tile / 4`) is `t`.
pub open spec fn type_count(h: Seq<Tile136>, t: int) -> int
    decreases h.len(),
{
    if h.len() == 0 {
        0
    } else {
        type_count(h.drop_last(), t) + (if h.last() / 4 == t { 1int } else { 0int })
    }
}

/// The 34 tile-type counts of a hand.
pub open spec fn tile_counts(h: Seq<Tile136>) -> Seq<int> {
    Seq::new(34, |t: int| type_count(h, t))
}

/// A hand the shanten functions accept: real tiles (below 136), at most 199
/// of them (so that with one tile more every value of the partition search
/// still fits in `i8`), and at most 127 of any one type (so each count fits
/// in `i8`).
pub open spec fn valid_hand(h: Seq<Tile136>) -> bool {
    &&& h.len() <= 199
    &&& forall|i: int| 0 <= i < h.len() ==> #[trigger] h[i] < 136
    &&& forall|t: int| 0 <= t < 34 ==> #[trigger] type_count(h, t) <= 127
}

pub proof fn lemma_type_count_concat(a: Seq<Tile136>, b: Seq<Tile136>, t: int)
    ensures
        type_count(a + b, t) == type_count(a, t) + type_count(b, t),
    decreases b.len(),
{
    if b.len() > 0 {
        assert((a + b).drop_last() =~= a + b.drop_last());
        lemma_type_count_concat(a, b.drop_last(), t);
    } else {
        assert(a + b =~= a);
    }
}

pub proof fn lemma_type_count_nonneg(h: Seq<Tile136>, t: int)
    ensures
        type_count(h, t) >= 0,
    decreases h.len(),
{
    if h.len() > 0 {
        lemma_type_count_nonneg(h.drop_last(), t);
    }
}

pub proof fn lemma_type_count_take(h: Seq<Tile136>, i: int, t: int)
    requires
        0 <= i <= h.len(),
    ensures
        type_count(h.take(i), t) <= type_count(h, t),
{
    assert(h =~= h.take(i) + h.skip(i));
    lemma_type_count_concat(h.take(i), h.skip(i), t);
    lemma_type_count_nonneg(h.skip(i), t);
}

pub(crate) proof fn lemma_type_count_remove(h: Seq<Tile136>, i: int, t: int)
    requires
        0 <= i < h.len(),
    ensures
        type_count(h.remove(i), t) <= type_count(h, t),
        type_count(h.remove(i), t) == type_count(h, t) - (if h[i] / 4 == t { 1int } else { 0int }),
{
    assert(h =~= h.take(i) + (seq![h[i]] + h.skip(i + 1)));
    assert(h.remove(i) =~= h.take(i) + h.skip(i + 1));
    lemma_type_count_concat(h.take(i), seq![h[i]] + h.skip(i + 1), t);
    lemma_type_count_concat(seq![h[i]], h.skip(i + 1), t);
    lemma_type_count_concat(h.take(i), h.skip(i + 1), t);
    let one = seq![h[i]];
    assert(one.drop_last() =~= Seq::<Tile136>::empty());
    assert(type_count(one.drop_last(), t) == 0);
    assert(type_count(one, t) == (if h[i] / 4 == t { 1int } else { 0int }));
}

pub(crate) proof fn lemma_remove_valid(h: Seq<Tile136>, i: int)
    requires
        valid_hand(h),
        0 <= i < h.len(),
    ensures
        valid_hand(h.remove(i)),
{
    assert forall|t: int| 0 <= t < 34 implies #[trigger] type_count(h.remove(i), t) <= 127 by {
        lemma_type_count_remove(h, i, t);
    }
    assert forall|j: int| 0 <= j < h.remove(i).len() implies #[trigger] h.remove(i)[j] < 136 by {
        if j < i {
            assert(h.remove(i)[j] == h[j]);
        } else {
            assert(h.remove(i)[j] == h[j + 1]);
        }
    }
}

proof fn lemma_tile_counts_total(h: Seq<Tile136>)
    requires
        forall|i: int| 0 <= i < h.len() ==> #[trigger] h[i] < 136,
    ensures
        pos_sum(tile_counts(h), 0, 34) == h.len(),
        forall|t: int| 0 <= t < 34 ==> #[trigger] tile_counts(h)[t] >= 0,
    decreases h.len(),
{
    if h.len() == 0 {
        assert forall|t: int| 0 <= t < 34 implies #[trigger] tile_counts(h)[t] >= 0 by {}
        lemma_pos_sum_zero(tile_counts(h), 0, 34);
    } else {
        let h2 = h.drop_last();
        assert forall|i: int| 0 <= i < h2.len() implies #[trigger] h2[i] < 136 by {
            assert(h2[i] == h[i]);
        }
        lemma_tile_counts_total(h2);
        let q = (h.last() / 4) as int;
        assert(h[h.len() - 1] < 136);
        assert(tile_counts(h) =~= tile_counts(h2).update(q, tile_counts(h2)[q] + 1));
        lemma_pos_sum_update(tile_counts(h2), 0, 34, q, tile_counts(h2)[q] + 1);
    }
}

proof fn lemma_pos_sum_zero(s: Seq<int>, lo: int, hi: int)
    requires
        forall|i: int| lo <= i < hi ==> s[i] == 0,
    ensures
        pos_sum(s, lo, hi) == 0,
    decreases hi - lo,
{
    if lo < hi {
        lemma_pos_sum_zero(s, lo + 1, hi);
    }
}

/// Count the tile types of a hand into a 34-entry table.
fn hand_counts(hand: &[Tile136]) -> (counts: [i8; 34])
    requires
        valid_hand(hand@),
    ensures
        ints(counts@) == tile_counts(hand@),
{
    let mut counts: [i8; 34] = [0; 34];
    let mut i: usize = 0;
    while i < hand.len()
        invariant
            valid_hand(hand@),
            i <= hand@.len(),
            forall|t: int| 0 <= t < 34 ==> #[trigger] counts@[t] == type_count(hand@.take(i as int), t),
        decreases hand@.len() - i,
    {
        let tile = hand[i];
        assert(tile < 136);
        let ti = t136_to_t34(tile) as usize;
        proof {
            assert(hand@.take(i + 1).drop_last() =~= hand@.take(i as int));
            lemma_type_count_take(hand@, i + 1, ti as int);
            assert forall|t: int| 0 <= t < 34 implies type_count(hand@.take(i + 1), t) == type_count(
                hand@.take(i as int),
                t,
            ) + (if t == ti { 1int } else { 0int }) by {}
        }
        counts[ti] = counts[ti] + 1;
        i = i + 1;
    }
    assert(hand@.take(hand@.len() as int) =~= hand@);
    assert(ints(counts@) =~= tile_counts(hand@));
    counts
}

/// Overall shanten: the least of the standard, seven-pairs and thirteen-orphans forms.
pub open spec fn spec_shanten(c: Seq<int>) -> int {
    min(min(spec_normal_shanten(c), spec_chiitoitsu_shanten(c)), spec_kokushi_shanten(c))
}

/// Overall shanten.
pub fn calc_shanten(hand_136: &[Tile136]) -> (r: i8)
    requires
        valid_hand(hand_136@),
    ensures
        r == spec_shanten(tile_counts(hand_136@)),
{
    let counts = hand_counts(hand_136);
    proof {
        lemma_tile_counts_total(hand_136@);
    }
    let normal = normal_shanten(&counts);
    let chiitoi = chiitoitsu_shanten(&counts);
    let kokushi = kokushi_shanten(&counts);
    let a = if normal <= chiitoi { normal } else { chiitoi };
    if a <= kokushi { a } else { kokushi }
}

#[derive(Debug, Clone, Copy, PartialEq, Eq, Structural)]
pub enum HandType {
    Normal,
    Chiitoitsu,
    Kokushi,
}

#[derive(Debug, Clone, Copy)]
pub struct ShantenInfo {
    pub shanten: i8,
    pub hand_type: HandType,
    pub ukeire_count: u32,
}

impl ShantenInfo {
    pub fn is_tenpai(&self) -> (r: bool)
        ensures
            r == (self.shanten <= 0),
    {
        self.shanten <= 0
    }
}

/// The form whose shanten is least, preferring standard, then seven pairs, on ties.
pub open spec fn spec_hand_type(c: Seq<int>) -> HandType {
    let n = spec_normal_shanten(c);
    let ch = spec_chiitoitsu_shanten(c);
    let k = spec_kokushi_shanten(c);
    if n <= ch && n <= k {
        HandType::Normal
    } else if ch <= k {
        HandType::Chiitoitsu
    } else {
        HandType::Kokushi
    }
}

/// The shanten of `c` measured in one form.
pub open spec fn shanten_in(ht: HandType, c: Seq<int>) -> int {
    match ht {
        HandType::Normal => spec_normal_shanten(c),
        HandType::Chiitoitsu => spec_chiitoitsu_shanten(c),
        HandType::Kokushi => spec_kokushi_shanten(c),
    }
}

/// Ukeire over the first `n` tile types: for each type with fewer than four
/// copies held whose draw would lower the shanten (in form `ht`) below `sh`,
/// the number of its copies not held.
pub open spec fn ukeire_upto(c: Seq<int>, ht: HandType, sh: int, n: int) -> int
    decreases n,
{
    if n <= 0 {
        0
    } else {
        ukeire_upto(c, ht, sh, n - 1) + (if c[n - 1] < 4 && shanten_in(ht, c.update(n - 1, c[n - 1] + 1))
            < sh {
            4 - c[n - 1]
        } else {
            0
        })
    }
}

/// Shanten, form and ukeire of the count table `c`.
pub open spec fn spec_shanten_info(c: Seq<int>) -> (int, HandType, int) {
    let ht = spec_hand_type(c);
    (spec_shanten(c), ht, ukeire_upto(c, ht, spec_shanten(c), 34))
}

/// Detailed shanten with ukeire count.
pub fn calc_shanten_detailed(hand_136: &[Tile136]) -> (info: ShantenInfo)
    requires
        valid_hand(hand_136@),
    ensures
        info.shanten == spec_shanten_info(tile_counts(hand_136@)).0,
        info.hand_type == spec_shanten_info(tile_counts(hand_136@)).1,
        info.ukeire_count == spec_shanten_info(tile_counts(hand_136@)).2,
        info.hand_type == HandType::Chiitoitsu ==> info.ukeire_count == 3 * singles(tile_counts(hand_136@), 34),
{
    let ghost c = tile_counts(hand_136@);
    let counts = hand_counts(hand_136);
    proof {
        lemma_tile_counts_total(hand_136@);
    }
    let normal = normal_shanten(&counts);
    let chiitoi = chiitoitsu_shanten(&counts);
    let kokushi = kokushi_shanten(&counts);

    let (shanten, hand_type) = if normal <= chiitoi && normal <= kokushi {
        (normal, HandType::Normal)
    } else if chiitoi <= kokushi {
        (chiitoi, HandType::Chiitoitsu)
    } else {
        (kokushi, HandType::Kokushi)
    };
    assert(shanten == spec_shanten(c));

    let mut ukeire_count = 0u32;
    let mut t34: usize = 0;
    while t34 < 34
        invariant
            c == ints(counts@),
            c == tile_counts(hand_136@),
            hand_136@.len() <= 199,
            pos_sum(c, 0, 34) == hand_136@.len(),
            forall|t: int| 0 <= t < 34 ==> #[trigger] c[t] >= 0,
            t34 <= 34,
            hand_type == spec_hand_type(c),
            shanten == spec_shanten(c),
            ukeire_count == ukeire_upto(c, hand_type, shanten as int, t34 as int),
            ukeire_count <= 4 * t34,
        decreases 34 - t34,
    {
        assert(c[t34 as int] == counts[t34 as int]);
        assert(c[t34 as int] >= 0);
        if counts[t34] < 4 {
            let mut new_counts = counts;
            new_counts[t34] = new_counts[t34] + 1;
            assert(ints(new_counts@) =~= c.update(t34 as int, c[t34 as int] + 1));
            proof {
                lemma_pos_sum_update(c, 0, 34, t34 as int, c[t34 as int] + 1);
            }
            let new_shanten = match hand_type {
                HandType::Normal => normal_shanten(&new_counts),
                HandType::Chiitoitsu => chiitoitsu_shanten(&new_counts),
                HandType::Kokushi => kokushi_shanten(&new_counts),
            };
            if new_shanten < shanten {
                ukeire_count = ukeire_count + (4 - counts[t34]) as u32;
            }
        }
        t34 = t34 + 1;
    }
    proof {
        if hand_type == HandType::Chiitoitsu {
            lemma_seven_pairs_ukeire(tile_counts(hand_136@));
        }
    }
    ShantenInfo { shanten, hand_type, ukeire_count }
}

/// The (shanten, ukeire) left after discarding the tile at index `i`.
pub open spec fn discard_result(h: Seq<Tile136>, i: int) -> (int, int) {
    let info = spec_shanten_info(tile_counts(h.remove(i)));
    (info.0, info.2)
}

/// `a` is a strictly better discard outcome than `b`: lower shanten, or equal shanten and more ukeire.
pub open spec fn better_outcome(a: (int, int), b: (int, int)) -> bool {
    a.0 < b.0 || (a.0 == b.0 && a.1 > b.1)
}

/// Index of the first discard among the first `n` whose outcome no earlier one beats.
pub open spec fn best_discard_index(h: Seq<Tile136>, n: int) -> int
    decreases n,
{
    if n <= 1 {
        0
    } else {
        let j = best_discard_index(h, n - 1);
        if better_outcome(discard_result(h, n - 1), discard_result(h, j)) {
            n - 1
        } else {
            j
        }
    }
}

pub(crate) proof fn lemma_best_discard_index(h: Seq<Tile136>, n: int)
    requires
        n >= 1,
    ensures
        0 <= best_discard_index(h, n) < n,
        forall|j: int|
            0 <= j < n ==> !better_outcome(
                #[trigger] discard_result(h, j),
                discard_result(h, best_discard_index(h, n)),
            ),
    decreases n,
{
    if n > 1 {
        lemma_best_discard_index(h, n - 1);
    }
}

pub(crate) fn remove_at(hand: &[Tile136], i: usize) -> (r: Vec<Tile136>)
    requires
        i < hand@.len(),
    ensures
        r@ == hand@.remove(i as int),
{
    let mut r: Vec<Tile136> = Vec::new();
    let mut j: usize = 0;
    while j < hand.len()
        invariant
            i < hand@.len(),
            j <= hand@.len(),
            r@ == (if j <= i { hand@.take(j as int) } else { hand@.remove(i as int).take(j - 1) }),
        decreases hand@.len() - j,
    {
        if j != i {
            r.push(hand[j]);
        }
        proof {
            if j < i {
                assert(hand@.take(j + 1) =~= hand@.take(j as int).push(hand@[j as int]));
            } else if j == i {
                assert(hand@.take(j as int) =~= hand@.remove(i as int).take(j + 1 - 1));
            } else {
                assert(hand@.remove(i as int).take(j as int) =~= hand@.remove(i as int).take(j - 1).push(
                    hand@[j as int],
                ));
            }
        }
        j = j + 1;
    }
    assert(hand@.remove(i as int).take(hand@.len() - 1) =~= hand@.remove(i as int));
    r
}

/// Best discard for shanten improvement: the first tile whose discard leaves the
/// lowest shanten, ties broken by the highest ukeire. `None` for an empty hand.
pub fn best_discard_for_shanten(hand_136: &[Tile136]) -> (r: Option<(Tile136, i8, u32)>)
    requires
        valid_hand(hand_136@),
    ensures
        r is None <==> hand_136@.len() == 0,
        r matches Some(b) ==> {
            let i = best_discard_index(hand_136@, hand_136@.len() as int);
            &&& b.0 == hand_136@[i]
            &&& b.1 == discard_result(hand_136@, i).0
            &&& b.2 == discard_result(hand_136@, i).1
            &&& forall|j: int|
                0 <= j < hand_136@.len() ==> !better_outcome(#[trigger] discard_result(hand_136@, j), (b.1 as int, b.2 as int))
            &&& forall|j: int|
                0 <= j < hand_136@.len() ==> (#[trigger] discard_result(hand_136@, j)).0 > b.1 || (discard_result(
                    hand_136@,
                    j,
                ).0 == b.1 && discard_result(hand_136@, j).1 <= b.2)
        },
{
    let ghost h = hand_136@;
    let mut best: Option<(Tile136, i8, u32)> = None;
    let mut i: usize = 0;
    while i < hand_136.len()
        invariant
            h == hand_136@,
            valid_hand(h),
            i <= h.len(),
            best is None <==> i == 0,
            best matches Some(b) ==> {
                let bi = best_discard_index(h, i as int);
                &&& b.0 == h[bi]
                &&& b.1 == discard_result(h, bi).0
                &&& b.2 == discard_result(h, bi).1
            },
        decreases h.len() - i,
    {
        let tile = hand_136[i];
        let new_hand = remove_at(hand_136, i);
        proof {
            lemma_remove_valid(h, i as int);
        }
        let info = calc_shanten_detailed(&new_hand);
        let is_better = match best {
            None => true,
            Some((_, bs, bu)) => info.shanten < bs || (info.shanten == bs && info.ukeire_count > bu),
        };
        if is_better {
            best = Some((tile, info.shanten, info.ukeire_count));
        }
        i = i + 1;
    }
    proof {
        if h.len() > 0 {
            lemma_best_discard_index(h, h.len() as int);
        }
    }
    best
}

/// Every tile is a real tile (below 136) and no type occurs more than 127 times.
pub open spec fn countable(h: Seq<Tile136>) -> bool {
    &&& forall|i: int| 0 <= i < h.len() ==> #[trigger] h[i] < 136
    &&& forall|t: int| 0 <= t < 34 ==> #[trigger] type_count(h, t) <= 127
}

/// Adds one tile to the count table, which stays the counts of a prefix of `all`.
pub(crate) fn count_tile(counts: &mut [i8; 34], tile: Tile136, Ghost(seen): Ghost<Seq<Tile136>>, Ghost(all): Ghost<Seq<Tile136>>)
    requires
        countable(all),
        seen.len() < all.len(),
        seen.push(tile) == all.take(seen.len() as int + 1),
        ints(old(counts)@) == tile_counts(seen),
    ensures
        ints(final(counts)@) == tile_counts(seen.push(tile)),
{
    let ghost s2 = seen.push(tile);
    assert(s2[seen.len() as int] == tile);
    assert(all.take(seen.len() as int + 1)[seen.len() as int] == all[seen.len() as int]);
    assert(all[seen.len() as int] == tile);
    assert(tile < 136);
    let ti = t136_to_t34(tile) as usize;
    proof {
        assert(s2.drop_last() =~= seen);
        lemma_type_count_take(all, seen.len() as int + 1, ti as int);
        assert(ints(counts@)[ti as int] == type_count(seen, ti as int));
    }
    counts[ti] = counts[ti] + 1;
    assert forall|t: int| 0 <= t < 34 implies #[trigger] ints(counts@)[t] == tile_counts(s2)[t] by {
        assert(s2.last() == tile);
        assert(ints(old(counts)@)[t] == type_count(seen, t));
        assert(counts@[t] == old(counts)@[t] + (if t == ti { 1int } else { 0int }));
        assert(type_count(s2, t) == type_count(seen, t) + (if tile / 4 == t { 1int } else { 0int }));
    }
    assert(ints(counts@) =~= tile_counts(s2));
}

/// Every hand is at most six from seven pairs, so its shanten is at most six.
pub proof fn lemma_shanten_at_most_six(c: Seq<int>)
    ensures
        spec_shanten(c) <= 6,
{
    lemma_pair_kinds_nonneg(c, 34);
}

proof fn lemma_pair_kinds_nonneg(c: Seq<int>, n: int)
    ensures
        pair_kinds(c, n) >= 0,
    decreases n,
{
    if n > 0 {
        lemma_pair_kinds_nonneg(c, n - 1);
    }
}

/// No tile type occurs more often than the hand has tiles.
pub proof fn lemma_type_count_le_len(h: Seq<Tile136>, t: int)
    ensures
        0 <= type_count(h, t) <= h.len(),
    decreases h.len(),
{
    if h.len() > 0 {
        lemma_type_count_le_len(h.drop_last(), t);
    }
}

/// Whether the shanten functions accept `hand` (see `valid_hand`).
pub fn hand_is_valid(hand: &[Tile136]) -> (r: bool)
    ensures
        r == valid_hand(hand@),
{
    if hand.len() > 199 {
        return false;
    }
    let mut i: usize = 0;
    while i < hand.len()
        invariant
            i <= hand@.len(),
            forall|k: int| 0 <= k < i ==> #[trigger] hand@[k] < 136,
        decreases hand@.len() - i,
    {
        if hand[i] >= 136 {
            return false;
        }
        i = i + 1;
    }
    let counts = hand_counts_wide(hand);
    let mut t: usize = 0;
    while t < 34
        invariant
            t <= 34,
            forall|k: int| 0 <= k < 34 ==> #[trigger] counts@[k] as int == type_count(hand@, k),
            forall|k: int| 0 <= k < t ==> #[trigger] type_count(hand@, k) <= 127,
        decreases 34 - t,
    {
        if counts[t] > 127 {
            return false;
        }
        t = t + 1;
    }
    true
}

/// The 34 tile-type counts of a hand of real tiles, in `usize`.
fn hand_counts_wide(hand: &[Tile136]) -> (counts: [usize; 34])
    requires
        hand@.len() <= 199,
        forall|k: int| 0 <= k < hand@.len() ==> #[trigger] hand@[k] < 136,
    ensures
        forall|k: int| 0 <= k < 34 ==> #[trigger] counts@[k] as int == type_count(hand@, k),
{
    let mut counts: [usize; 34] = [0; 34];
    let mut i: usize = 0;
    while i < hand.len()
        invariant
            i <= hand@.len(),
            hand@.len() <= 199,
            forall|k: int| 0 <= k < hand@.len() ==> #[trigger] hand@[k] < 136,
            forall|k: int| 0 <= k < 34 ==> #[trigger] counts@[k] as int == type_count(hand@.take(i as int), k),
            forall|k: int| 0 <= k < 34 ==> #[trigger] counts@[k] <= i,
        decreases hand@.len() - i,
    {
        let x = hand[i];
        let ti = (x / 4) as usize;
        assert(hand@.take(i + 1).drop_last() =~= hand@.take(i as int));
        assert(hand@.take(i + 1).last() == x);
        counts[ti] = counts[ti] + 1;
        i = i + 1;
    }
    assert(hand@.take(hand@.len() as int) =~= hand@);
    counts
}

/// A (complete, partial) count fits in `budget` tiles.
spec fn fits(v: (int, int), budget: int) -> bool {
    0 <= v.0 && 0 <= v.1 && 3 * v.0 + 2 * v.1 <= budget
}

proof fn lemma_join_fits(m: Option<(int, int)>, v: (int, int), budget: int)
    requires
        m matches Some(x) ==> fits(x, budget),
        fits(v, budget),
    ensures
        fits(join(m, v)->0, budget),
{
}

/// The sets the suit search finds use distinct tiles: three per complete
/// set and two per partial set, out of the tiles in `s[pos..9]`.
proof fn lemma_suit_best_fits(s: Seq<int>, pos: int)
    requires
        s.len() == 9,
        0 <= pos <= 9,
    ensures
        fits(suit_best(s, pos), pos_sum(s, pos, 9)),
    decreases 9 - pos, s[pos],
{
    if pos >= 9 {
        reveal_with_fuel(suit_best, 1);
    } else {
        lemma_suit_best_unfold(s, pos);
        let ps = pos_sum(s, pos, 9);
        lemma_pos_sum_nonneg(s, pos + 1, 9);
        if s[pos] == 0 {
            lemma_suit_best_fits(s, pos + 1);
        } else {
            if kou_ok(s, pos) {
                let ch = kou_child(s, pos);
                lemma_suit_best_fits(ch, pos);
                lemma_pos_sum_update(s, pos, 9, pos, s[pos] - 3);
            }
            if shun_ok(s, pos) {
                let a = s.update(pos, s[pos] - 1);
                let b = a.update(pos + 1, s[pos + 1] - 1);
                let ch = b.update(pos + 2, s[pos + 2] - 1);
                assert(ch == shun_child(s, pos));
                lemma_suit_best_fits(ch, pos);
                lemma_pos_sum_update(s, pos, 9, pos, s[pos] - 1);
                lemma_pos_sum_update(a, pos, 9, pos + 1, s[pos + 1] - 1);
                lemma_pos_sum_update(b, pos, 9, pos + 2, s[pos + 2] - 1);
            }
            if pair_ok(s, pos) {
                let ch = pair_child(s, pos);
                lemma_suit_best_fits(ch, pos + 1);
                lemma_pos_sum_update(s, pos + 1, 9, pos, s[pos] - 2);
            }
            if adj_ok(s, pos) {
                let a = s.update(pos, s[pos] - 1);
                let ch = a.update(pos + 1, s[pos + 1] - 1);
                assert(ch == adj_child(s, pos));
                lemma_suit_best_fits(ch, pos + 1);
                lemma_pos_sum_update(s, pos + 1, 9, pos, s[pos] - 1);
                lemma_pos_sum_update(a, pos + 1, 9, pos + 1, s[pos + 1] - 1);
            }
            if gap_ok(s, pos) {
                let a = s.update(pos, s[pos] - 1);
                let ch = a.update(pos + 2, s[pos + 2] - 1);
                assert(ch == gap_child(s, pos));
                lemma_suit_best_fits(ch, pos + 1);
                lemma_pos_sum_update(s, pos + 1, 9, pos, s[pos] - 1);
                lemma_pos_sum_update(a, pos + 1, 9, pos + 2, s[pos + 2] - 1);
            }
            let skip = s.update(pos, 0);
            lemma_suit_best_fits(skip, pos + 1);
            lemma_pos_sum_update(s, pos + 1, 9, pos, 0);
            assert(stage1(s, pos) matches Some(x) ==> fits(x, ps));
            assert(stage2(s, pos) matches Some(x) ==> fits(x, ps)) by {
                if shun_ok(s, pos) {
                    lemma_join_fits(stage1(s, pos), plus(suit_best(shun_child(s, pos), pos), 1, 0), ps);
                }
            }
            assert(stage3(s, pos) matches Some(x) ==> fits(x, ps)) by {
                if pair_ok(s, pos) {
                    lemma_join_fits(stage2(s, pos), plus(suit_best(pair_child(s, pos), pos + 1), 0, 1), ps);
                }
            }
            assert(stage4(s, pos) matches Some(x) ==> fits(x, ps)) by {
                if adj_ok(s, pos) {
                    lemma_join_fits(stage3(s, pos), plus(suit_best(adj_child(s, pos), pos + 1), 0, 1), ps);
                }
            }
            assert(stage5(s, pos) matches Some(x) ==> fits(x, ps)) by {
                if gap_ok(s, pos) {
                    lemma_join_fits(stage4(s, pos), plus(suit_best(gap_child(s, pos), pos + 1), 0, 1), ps);
                }
            }
            lemma_join_fits(stage5(s, pos), suit_best(skip, pos + 1), ps);
        }
    }
}

proof fn lemma_partition_fits(c: Seq<int>)
    requires
        c.len() == 34,
    ensures
        fits(best_partition(c), pos_sum(c, 0, 34)),
{
    lemma_suit_best_fits(c.subrange(0, 9), 0);
    lemma_suit_best_fits(c.subrange(9, 18), 0);
    lemma_suit_best_fits(c.subrange(18, 27), 0);
    lemma_honor_sets_bound(c, 27);
    lemma_pos_sum_subrange(c, 0, 9, 0, 9);
    lemma_pos_sum_subrange(c, 9, 9, 0, 9);
    lemma_pos_sum_subrange(c, 18, 9, 0, 9);
    lemma_pos_sum_split(c, 0, 9, 34);
    lemma_pos_sum_split(c, 9, 18, 34);
    lemma_pos_sum_split(c, 18, 27, 34);
}

proof fn lemma_normal_at_least(c: Seq<int>, n: int)
    requires
        c.len() == 34,
        0 <= n <= 34,
        pos_sum(c, 0, 34) <= 14,
    ensures
        normal_upto(c, n) >= -1,
    decreases n,
{
    lemma_partition_fits(c);
    if n > 0 {
        lemma_normal_at_least(c, n - 1);
        if c[n - 1] >= 2 {
            let c2 = c.update(n - 1, c[n - 1] - 2);
            lemma_pos_sum_update(c, 0, 34, n - 1, c[n - 1] - 2);
            lemma_partition_fits(c2);
        }
    }
}

proof fn lemma_pair_kinds_fit(c: Seq<int>, n: int)
    requires
        0 <= n <= c.len(),
    ensures
        2 * pair_kinds(c, n) <= pos_sum(c, 0, n),
    decreases n,
{
    if n > 0 {
        lemma_pair_kinds_fit(c, n - 1);
        lemma_pos_sum_split(c, 0, n - 1, n);
        lemma_pos_sum_split(c, n - 1, n, n);
    }
}

proof fn lemma_kokushi_unique_bound(c: Seq<int>, n: int)
    requires
        n >= 0,
    ensures
        kokushi_unique(c, n) <= n,
    decreases n,
{
    if n > 0 {
        lemma_kokushi_unique_bound(c, n - 1);
    }
}

/// A hand of at most fourteen tiles is at best complete: its shanten is at
/// least -1.
pub proof fn lemma_shanten_at_least_minus_one(h: Seq<Tile136>)
    requires
        h.len() <= 14,
        forall|i: int| 0 <= i < h.len() ==> #[trigger] h[i] < 136,
    ensures
        spec_shanten(tile_counts(h)) >= -1,
{
    let c = tile_counts(h);
    lemma_tile_counts_total(h);
    lemma_normal_at_least(c, 34);
    lemma_pair_kinds_fit(c, 34);
    lemma_kokushi_unique_bound(c, 13);
}

proof fn lemma_normal_at_least_zero(c: Seq<int>, n: int)
    requires
        c.len() == 34,
        0 <= n <= 34,
        pos_sum(c, 0, 34) <= 13,
    ensures
        normal_upto(c, n) >= 0,
    decreases n,
{
    lemma_partition_fits(c);
    if n > 0 {
        lemma_normal_at_least_zero(c, n - 1);
        if c[n - 1] >= 2 {
            let c2 = c.update(n - 1, c[n - 1] - 2);
            lemma_pos_sum_update(c, 0, 34, n - 1, c[n - 1] - 2);
            lemma_partition_fits(c2);
        }
    }
}

proof fn lemma_kokushi_index_range(j: int)
    requires
        0 <= j < 13,
    ensures
        0 <= kokushi_index(j) < 34,
        j < 12 ==> kokushi_index(j) < kokushi_index(j + 1),
{
    if j == 0 {
    } else if j == 1 {
    } else if j == 2 {
    } else if j == 3 {
    } else if j == 4 {
    } else if j == 5 {
    } else if j == 6 {
    } else if j == 7 {
    } else if j == 8 {
    } else if j == 9 {
    } else if j == 10 {
    } else if j == 11 {
    } else {
    }
}

/// The thirteen-orphans types are counted in increasing order.
proof fn lemma_kokushi_fits(c: Seq<int>, n: int)
    requires
        1 <= n <= 13,
        c.len() == 34,
        forall|t: int| 0 <= t < 34 ==> #[trigger] c[t] >= 0,
    ensures
        kokushi_unique(c, n) + (if kokushi_pair(c, n) { 1int } else { 0int }) <= pos_sum(
            c,
            0,
            kokushi_index(n - 1) + 1,
        ),
    decreases n,
{
    let i = kokushi_index(n - 1);
    lemma_kokushi_index_range(n - 1);
    lemma_pos_sum_nonneg(c, 0, i);
    lemma_pos_sum_split(c, 0, i, i + 1);
    assert(pos_sum(c, i + 1, i + 1) == 0);
    assert(pos_sum(c, i, i + 1) == c[i]);
    assert(kokushi_unique(c, n) == kokushi_unique(c, n - 1) + (if c[i] != 0 { 1int } else { 0int }));
    assert(kokushi_pair(c, n) == (kokushi_pair(c, n - 1) || (c[i] != 0 && c[i] != 1)));
    if n > 1 {
        lemma_kokushi_fits(c, n - 1);
        let j = kokushi_index(n - 2);
        lemma_kokushi_index_range(n - 2);
        lemma_pos_sum_split(c, 0, j + 1, i);
        lemma_pos_sum_nonneg(c, j + 1, i);
    }
}

/// A hand of at most thirteen tiles is at best tenpai: its shanten is at
/// least 0.
pub proof fn lemma_shanten_at_least_zero(h: Seq<Tile136>)
    requires
        h.len() <= 13,
        forall|i: int| 0 <= i < h.len() ==> #[trigger] h[i] < 136,
    ensures
        spec_shanten(tile_counts(h)) >= 0,
{
    let c = tile_counts(h);
    lemma_tile_counts_total(h);
    lemma_normal_at_least_zero(c, 34);
    lemma_pair_kinds_fit(c, 34);
    lemma_kokushi_fits(c, 13);
    lemma_pos_sum_split(c, 0, 34, 34);
}

proof fn lemma_honor_sets_above(c: Seq<int>, h: int, v: int, lo: int)
    requires
        0 <= h < lo,
        c.len() == 34,
    ensures
        honor_sets(c.update(h, v), lo) == honor_sets(c, lo),
    decreases 34 - lo,
{
    if lo < 34 {
        lemma_honor_sets_above(c, h, v, lo + 1);
        assert(c.update(h, v)[lo] == c[lo]);
    }
}

proof fn lemma_honor_sets_pair(c: Seq<int>, h: int, lo: int)
    requires
        c.len() == 34,
        27 <= lo <= h < 34,
        c[h] == 0 || c[h] == 1,
    ensures
        honor_sets(c.update(h, 2), lo) == (honor_sets(c, lo).0, honor_sets(c, lo).1 + 1),
    decreases h - lo,
{
    if lo < h {
        lemma_honor_sets_pair(c, h, lo + 1);
    } else {
        lemma_honor_sets_above(c, h, 2, h + 1);
    }
}

/// An honor type held twice counts as one partial set of the best
/// partition, as a pair in a number suit does: holding two copies of an
/// honor type instead of none or one adds exactly one partial set and no
/// complete set.
pub proof fn lemma_honor_pair_is_partial_set(c: Seq<int>, h: int)
    requires
        c.len() == 34,
        27 <= h < 34,
        c[h] == 0 || c[h] == 1,
    ensures
        best_partition(c.update(h, 2)) == (best_partition(c).0, best_partition(c).1 + 1),
{
    let c2 = c.update(h, 2);
    assert(c2.subrange(0, 9) =~= c.subrange(0, 9));
    assert(c2.subrange(9, 18) =~= c.subrange(9, 18));
    assert(c2.subrange(18, 27) =~= c.subrange(18, 27));
    lemma_honor_sets_pair(c, h, 27);
}

proof fn lemma_normal_upto_head(c: Seq<int>, n: int, i: int)
    requires
        0 <= i < n <= c.len(),
        c[i] >= 2,
    ensures
        normal_upto(c, n) <= head_value(c, i),
    decreases n,
{
    if i < n - 1 {
        lemma_normal_upto_head(c, n - 1, i);
    }
}

/// Two honor pairs beside a hand: one is the pair, the other a partial set.
/// If the rest of the hand (`c`, holding neither honor) has best partition
/// `(k, t)`, the standard-form shanten with the two pairs is at most
/// `8 - 2k - (t + 1) - 1`, the partial sets counted up to the sets still
/// missing. So three complete sets and two honor pairs are tenpai.
pub proof fn lemma_two_honor_pairs(c: Seq<int>, h1: int, h2: int)
    requires
        c.len() == 34,
        27 <= h1 < 34,
        27 <= h2 < 34,
        h1 != h2,
        c[h1] == 0,
        c[h2] == 0,
    ensures
        spec_normal_shanten(c.update(h1, 2).update(h2, 2)) <= 2 * (4 - best_partition(c).0) - counted_partials(
            best_partition(c).0,
            best_partition(c).1 + 1,
        ) - 1,
        best_partition(c) == (3int, 0int) ==> spec_normal_shanten(c.update(h1, 2).update(h2, 2)) <= 0,
{
    let c2 = c.update(h1, 2).update(h2, 2);
    lemma_normal_upto_head(c2, 34, h1);
    assert(c2.update(h1, c2[h1] - 2) =~= c.update(h2, 2));
    lemma_honor_pair_is_partial_set(c, h2);
}

/// When seven pairs is the reported form, the tiles that lower the shanten
/// are the other copies of the types held exactly once (each draw makes one
/// more pair): the ukeire is three per single.
pub proof fn lemma_seven_pairs_ukeire(c: Seq<int>)
    requires
        c.len() == 34,
        spec_shanten_info(c).1 == HandType::Chiitoitsu,
    ensures
        spec_shanten_info(c).0 == 6 - pair_kinds(c, 34),
        spec_shanten_info(c).2 == 3 * singles(c, 34),
{
    lemma_seven_pairs_ukeire_upto(c, 34);
}

/// Number of tile types among the first `n` held exactly once.
pub open spec fn singles(c: Seq<int>, n: int) -> int
    decreases n,
{
    if n <= 0 {
        0
    } else {
        singles(c, n - 1) + (if c[n - 1] == 1 { 1int } else { 0int })
    }
}

proof fn lemma_pair_kinds_draw(c: Seq<int>, t: int, n: int)
    requires
        0 <= t < c.len(),
        0 <= n <= c.len(),
    ensures
        pair_kinds(c.update(t, c[t] + 1), n) == pair_kinds(c, n) + (if t < n && c[t] == 1 { 1int } else { 0int }),
    decreases n,
{
    if n > 0 {
        lemma_pair_kinds_draw(c, t, n - 1);
    }
}

proof fn lemma_seven_pairs_ukeire_upto(c: Seq<int>, n: int)
    requires
        c.len() == 34,
        0 <= n <= 34,
        spec_hand_type(c) == HandType::Chiitoitsu,
    ensures
        spec_shanten(c) == 6 - pair_kinds(c, 34),
        ukeire_upto(c, HandType::Chiitoitsu, spec_shanten(c), n) == 3 * singles(c, n),
    decreases n,
{
    if n > 0 {
        lemma_seven_pairs_ukeire_upto(c, n - 1);
        lemma_pair_kinds_draw(c, n - 1, 34);
    }
}

/// The best discard is best directly in shanten and ukeire: no discard
/// leaves a lower shanten, and none leaves the same shanten with more ukeire.
pub proof fn lemma_best_discard_beats_all(h: Seq<Tile136>)
    requires
        h.len() >= 1,
    ensures
        0 <= best_discard_index(h, h.len() as int) < h.len(),
        forall|j: int|
            0 <= j < h.len() ==> {
                let b = discard_result(h, best_discard_index(h, h.len() as int));
                let o = #[trigger] discard_result(h, j);
                o.0 > b.0 || (o.0 == b.0 && o.1 <= b.1)
            },
{
    lemma_best_discard_index(h, h.len() as int);
}

} // verus!
