//! Deterministic scoring: play score recomputed from grade counts, chain
//! tiers, chain bonus, clear bonus, and the 7-level grade rank.
//!
//! The total score is a pure function of the grade-count tuple, the maximum
//! chain and the note count: `play + chain_bonus + clear_bonus`, where the
//! play pool is 850 000 points split evenly over the notes, the chain bonus
//! is capped at 100 000, and the clear bonus is 50 000.

use vstd::prelude::*;

verus! {

use crate::fixed::{
    round_div_spec, lemma_round_div_le, lemma_round_div_ge, lemma_round_div_nonneg,
    round_div_u64,
};
use crate::judgment::Judgment;
use vstd::arithmetic::div_mod::lemma_fundamental_div_mod;
use vstd::arithmetic::mul::lemma_mul_inequality;

/// Points split evenly across all notes by the play score.
pub const PLAY_SCORE_POOL: u64 = 850_000;

/// Cap on the chain bonus.
pub const MAX_CHAIN_BONUS: u64 = 100_000;

/// Bonus for reaching the results screen.
pub const CLEAR_BONUS: u64 = 50_000;

/// Chain length at which the Fever tier starts.
pub const FEVER_THRESHOLD: u32 = 10;

/// Chain length at which the Trance tier starts.
pub const TRANCE_THRESHOLD: u32 = 100;

/// Chain tier; decides how much each non-miss advances the chain.
#[derive(Debug, Clone, Copy, PartialEq, Eq, Structural)]
pub enum ChainTier {
    Normal,
    Fever,
    Trance,
}

/// Final letter rating computed from the total score.
#[derive(Debug, Clone, Copy, PartialEq, Eq, Structural)]
pub enum GradeRank {
    SPlusPlus,
    SPlus,
    S,
    A,
    B,
    C,
    D,
}

impl GradeRank {
    /// Display label for the rank.
    pub fn label(&self) -> (r: &'static str) {
        match self {
            GradeRank::SPlusPlus => "S++",
            GradeRank::SPlus => "S+",
            GradeRank::S => "S",
            GradeRank::A => "A",
            GradeRank::B => "B",
            GradeRank::C => "C",
            GradeRank::D => "D",
        }
    }
}

/// Play-score weight of a grade, in per-mille of the per-note base value.
pub open spec fn spec_grade_multiplier(j: Judgment) -> int {
    match j {
        Judgment::Great => 1000,
        Judgment::Cool => 800,
        Judgment::Good => 500,
        Judgment::Miss => 0,
    }
}

/// Play-score weight of a grade, in per-mille of the per-note base value.
pub fn grade_multiplier(judgment: Judgment) -> (r: u32)
    ensures
        r == spec_grade_multiplier(judgment),
{
    match judgment {
        Judgment::Great => 1000,
        Judgment::Cool => 800,
        Judgment::Good => 500,
        Judgment::Miss => 0,
    }
}

/// The tier a chain value is in.
pub open spec fn spec_chain_tier(chain: int) -> ChainTier {
    if chain >= TRANCE_THRESHOLD {
        ChainTier::Trance
    } else if chain >= FEVER_THRESHOLD {
        ChainTier::Fever
    } else {
        ChainTier::Normal
    }
}

/// How much one non-miss advances the chain in the given tier.
pub open spec fn spec_chain_increment(tier: ChainTier) -> int {
    match tier {
        ChainTier::Normal => 1,
        ChainTier::Fever => 2,
        ChainTier::Trance => 4,
    }
}

/// How much one non-miss advances the chain in the given tier.
pub fn chain_increment(tier: ChainTier) -> (r: u32)
    ensures
        r == spec_chain_increment(tier),
{
    match tier {
        ChainTier::Normal => 1,
        ChainTier::Fever => 2,
        ChainTier::Trance => 4,
    }
}

/// The rank a total score earns.
pub open spec fn spec_grade_rank(score: int) -> GradeRank {
    if score >= 1_000_000 {
        GradeRank::SPlusPlus
    } else if score >= 980_000 {
        GradeRank::SPlus
    } else if score >= 950_000 {
        GradeRank::S
    } else if score >= 900_000 {
        GradeRank::A
    } else if score >= 800_000 {
        GradeRank::B
    } else if score >= 700_000 {
        GradeRank::C
    } else {
        GradeRank::D
    }
}

/// Map a total score to its grade rank.
pub fn grade_rank_from_score(score: u64) -> (r: GradeRank)
    ensures
        r == spec_grade_rank(score as int),
{
    if score >= 1_000_000 {
        GradeRank::SPlusPlus
    } else if score >= 980_000 {
        GradeRank::SPlus
    } else if score >= 950_000 {
        GradeRank::S
    } else if score >= 900_000 {
        GradeRank::A
    } else if score >= 800_000 {
        GradeRank::B
    } else if score >= 700_000 {
        GradeRank::C
    } else {
        GradeRank::D
    }
}

/// Running score state for one play-through of a chart.
#[derive(Debug, Clone, Copy, PartialEq, Eq, Structural)]
pub struct ScoreState {
    /// Running play score (display only; the final score is recomputed from
    /// the counts).
    pub score: u64,
    /// Current chain of consecutive non-misses, advanced by the tier
    /// increment.
    pub chain: u32,
    /// Largest chain reached so far.
    pub max_chain: u32,
    pub great_count: u32,
    pub cool_count: u32,
    pub good_count: u32,
    pub miss_count: u32,
    /// Number of notes in the chart.
    pub total_notes: u32,
}

impl ScoreState {
    /// Fresh state for a chart with `total_notes` notes.
    pub fn new(total_notes: u32) -> (r: ScoreState)
        ensures
            r.wf(),
            r.total_notes == total_notes,
            r.score == 0 && r.chain == 0 && r.max_chain == 0,
            r.great_count == 0 && r.cool_count == 0 && r.good_count == 0 && r.miss_count == 0,
    {
        ScoreState {
            score: 0,
            chain: 0,
            max_chain: 0,
            great_count: 0,
            cool_count: 0,
            good_count: 0,
            miss_count: 0,
            total_notes,
        }
    }

    /// Number of notes judged so far.
    pub open spec fn spec_notes_judged(self) -> int {
        self.great_count + self.cool_count + self.good_count + self.miss_count
    }

    /// State invariant: the chain never exceeds the maximum chain, and no
    /// more notes have been judged than the chart holds.
    pub open spec fn wf(self) -> bool {
        &&& self.chain <= self.max_chain
        &&& self.spec_notes_judged() <= self.total_notes
    }

    /// Number of notes judged so far.
    pub fn notes_judged(&self) -> (r: u32)
        requires
            self.wf(),
        ensures
            r == self.spec_notes_judged(),
    {
        self.great_count + self.cool_count + self.good_count + self.miss_count
    }

    /// Tier of the current chain.
    pub fn chain_tier(&self) -> (r: ChainTier)
        ensures
            r == spec_chain_tier(self.chain as int),
    {
        if self.chain >= TRANCE_THRESHOLD {
            ChainTier::Trance
        } else if self.chain >= FEVER_THRESHOLD {
            ChainTier::Fever
        } else {
            ChainTier::Normal
        }
    }

    /// Play score as a function of the grade counts: each count earns the
    /// rounded share `count * pool * weight / total`.
    pub open spec fn spec_play_score(self) -> int {
        if self.total_notes == 0 {
            0
        } else {
            round_div_spec(850_000 * self.great_count, self.total_notes as int)
                + round_div_spec(680_000 * self.cool_count, self.total_notes as int)
                + round_div_spec(425_000 * self.good_count, self.total_notes as int)
        }
    }

    /// Recompute the play score from the grade counts.
    pub fn play_score(&self) -> (r: u64)
        ensures
            r == self.spec_play_score(),
    {
        if self.total_notes == 0 {
            return 0;
        }
        let t: u64 = self.total_notes as u64;
        let great_pts = round_div_u64(850_000 * self.great_count as u64, t);
        let cool_pts = round_div_u64(680_000 * self.cool_count as u64, t);
        let good_pts = round_div_u64(425_000 * self.good_count as u64, t);
        great_pts + cool_pts + good_pts
    }

    /// Chain bonus: `100_000 * max_chain / total`, rounded, capped at
    /// 100_000.
    pub open spec fn spec_chain_bonus(self) -> int {
        if self.total_notes == 0 {
            0
        } else {
            let raw = round_div_spec(100_000 * self.max_chain, self.total_notes as int);
            if raw > 100_000 {
                100_000
            } else {
                raw
            }
        }
    }

    /// Compute the chain bonus.
    pub fn chain_bonus(&self) -> (r: u64)
        ensures
            r == self.spec_chain_bonus(),
            r <= MAX_CHAIN_BONUS,
    {
        if self.total_notes == 0 {
            return 0;
        }
        let raw = round_div_u64(100_000 * self.max_chain as u64, self.total_notes as u64);
        if raw > MAX_CHAIN_BONUS {
            MAX_CHAIN_BONUS
        } else {
            raw
        }
    }

    /// Bonus for finishing the song.
    pub fn clear_bonus(&self) -> (r: u64)
        ensures
            r == CLEAR_BONUS,
    {
        CLEAR_BONUS
    }

    /// Total score as a pure function of counts and maximum chain.
    pub open spec fn spec_total_score(self) -> int {
        self.spec_play_score() + self.spec_chain_bonus() + CLEAR_BONUS
    }

    /// Compute the total score: play score + chain bonus + clear bonus.
    pub fn total_score(&self) -> (r: u64)
        ensures
            r == self.spec_total_score(),
    {
        self.play_score() + self.chain_bonus() + self.clear_bonus()
    }

    /// Whether the song has ended: a nonempty chart whose every note has
    /// been judged, once no feedback animation is still pending.
    pub fn song_complete(&self, feedback_pending: bool) -> (r: bool)
        requires
            self.wf(),
        ensures
            r == (self.total_notes > 0 && self.spec_notes_judged() >= self.total_notes
                && !feedback_pending),
    {
        self.total_notes > 0 && self.notes_judged() >= self.total_notes && !feedback_pending
    }

    /// Grade rank of the total score.
    pub fn grade_rank(&self) -> (r: GradeRank)
        ensures
            r == spec_grade_rank(self.spec_total_score()),
    {
        grade_rank_from_score(self.total_score())
    }

    /// Points the running score gains for one judgment.
    pub open spec fn spec_note_score(self, j: Judgment) -> int {
        if self.total_notes == 0 {
            0
        } else {
            round_div_spec(850_000 * spec_grade_multiplier(j), 1000 * self.total_notes as int)
        }
    }

    /// Consume one judgment: bump its grade count, advance or reset the
    /// chain by the tier rule, and add the note's rounded share to the
    /// running score.
    pub fn apply_judgment(&mut self, j: Judgment)
        requires
            old(self).wf(),
            old(self).spec_notes_judged() < old(self).total_notes,
            old(self).chain + 4 <= u32::MAX,
            old(self).score + 850_000 <= u64::MAX,
        ensures
            final(self).wf(),
            final(self).total_notes == old(self).total_notes,
            final(self).great_count == old(self).great_count + if j == Judgment::Great { 1int } else { 0int },
            final(self).cool_count == old(self).cool_count + if j == Judgment::Cool { 1int } else { 0int },
            final(self).good_count == old(self).good_count + if j == Judgment::Good { 1int } else { 0int },
            final(self).miss_count == old(self).miss_count + if j == Judgment::Miss { 1int } else { 0int },
            j == Judgment::Miss ==> final(self).chain == 0 && final(self).max_chain == old(self).max_chain,
            j != Judgment::Miss ==> final(self).chain == old(self).chain + spec_chain_increment(
                spec_chain_tier(old(self).chain as int)),
            final(self).max_chain == if final(self).chain > old(self).max_chain { final(self).chain } else { old(self).max_chain },
            final(self).score == old(self).score + old(self).spec_note_score(j),
    {
        match j {
            Judgment::Great => { self.great_count = self.great_count + 1; },
            Judgment::Cool => { self.cool_count = self.cool_count + 1; },
            Judgment::Good => { self.good_count = self.good_count + 1; },
            Judgment::Miss => { self.miss_count = self.miss_count + 1; },
        }

        if matches!(j, Judgment::Miss) {
            self.chain = 0;
        } else {
            let tier = self.chain_tier();
            self.chain = self.chain + chain_increment(tier);
            if self.chain > self.max_chain {
                self.max_chain = self.chain;
            }
        }

        let mult = grade_multiplier(j) as u64;
        if self.total_notes > 0 {
            let note_score = round_div_u64(850_000 * mult, 1000 * self.total_notes as u64);
            proof {
                assert(850_000 * (mult as int) <= 850_000 * (1000 * (self.total_notes as int)))
                    by (nonlinear_arith)
                    requires
                        mult <= 1000,
                        self.total_notes >= 1,
                ;
                lemma_round_div_le(
                    850_000 * (mult as int),
                    1000 * (self.total_notes as int),
                    850_000,
                );
            }
            self.score = self.score + note_score;
        }
    }
}

/// The three per-grade rounded shares never sum past the play pool.
///
/// With `g + c + d <= t` notes judged, `round(850000 g / t) +
/// round(680000 c / t) + round(425000 d / t) <= 850000`.
#[verifier::rlimit(60)]
proof fn lemma_play_pool_bound(g: int, c: int, d: int, t: int)
    requires
        0 <= g,
        0 <= c,
        0 <= d,
        1 <= t,
        g + c + d <= t,
    ensures
        round_div_spec(850_000 * g, t) + round_div_spec(680_000 * c, t) + round_div_spec(
            425_000 * d,
            t,
        ) <= 850_000,
{
    let a1 = 2 * (850_000 * g) + t;
    let a2 = 2 * (680_000 * c) + t;
    let a3 = 2 * (425_000 * d) + t;
    let b = 2 * t;
    let q1 = a1 / b;
    let q2 = a2 / b;
    let q3 = a3 / b;
    let r1 = a1 % b;
    let r2 = a2 % b;
    let r3 = a3 % b;
    lemma_fundamental_div_mod(a1, b);
    lemma_fundamental_div_mod(a2, b);
    lemma_fundamental_div_mod(a3, b);
    assert(0 <= r1 < b && 0 <= r2 < b && 0 <= r3 < b) by {
        vstd::arithmetic::div_mod::lemma_mod_bound(a1, b);
        vstd::arithmetic::div_mod::lemma_mod_bound(a2, b);
        vstd::arithmetic::div_mod::lemma_mod_bound(a3, b);
    }
    vstd::arithmetic::div_mod::lemma_div_pos_is_pos(a1, b);
    vstd::arithmetic::div_mod::lemma_div_pos_is_pos(a2, b);
    vstd::arithmetic::div_mod::lemma_div_pos_is_pos(a3, b);

    if q1 + q2 + q3 >= 850_001 {
        // Summing the three division identities relates the quotients to the
        // numerators: b*(q1+q2+q3) == a1+a2+a3 - (r1+r2+r3).
        assert(b * (q1 + q2 + q3) == b * q1 + b * q2 + b * q3) by (nonlinear_arith);
        lemma_mul_inequality(850_001, q1 + q2 + q3, b);
        assert(850_001 * b <= b * (q1 + q2 + q3)) by (nonlinear_arith)
            requires
                850_001 * b <= (q1 + q2 + q3) * b,
        ;
        // So 1700002*t <= 1700000*g + 1360000*c + 850000*d + 3*t, and with
        // g <= t - c - d this forces 340000*c + 850000*d <= t.
        assert(340_000 * c + 850_000 * d <= t);

        // In that regime the cool and good quotients are tiny.
        if q3 >= 2 {
            lemma_mul_inequality(2, q3, b);
            assert(2 * b <= q3 * b) by (nonlinear_arith)
                requires
                    2 * b <= q3 * b,
            ;
            assert(b * q3 == q3 * b) by (nonlinear_arith);
            assert(false);
        }
        if q2 >= 3 {
            lemma_mul_inequality(3, q2, b);
            assert(b * q2 == q2 * b) by (nonlinear_arith);
            assert(false);
        }

        // Case analysis on the two small quotients; each case closes by
        // linear arithmetic over the division identities.
        let k = 850_001 - q2 - q3;
        lemma_mul_inequality(k, q1, b);
        assert(b * q1 == q1 * b && k * b == b * k) by (nonlinear_arith);
        assert(q2 == 0 ==> b * q2 == 0) by (nonlinear_arith);
        assert(q2 == 1 ==> b * q2 == b) by (nonlinear_arith);
        assert(q2 == 2 ==> b * q2 == 2 * b) by (nonlinear_arith);
        assert(q3 == 0 ==> b * q3 == 0) by (nonlinear_arith);
        assert(q3 == 1 ==> b * q3 == b) by (nonlinear_arith);
        // b*q1 >= b*k, i.e. 1700000*g + t - r1 >= 2*t*(850001 - q2 - q3).
        if q2 == 0 && q3 == 0 {
            assert(b * k == 1_700_002 * t) by (nonlinear_arith)
                requires
                    k == 850_001,
                    b == 2 * t,
            ;
            assert(false);
        } else if q2 == 1 && q3 == 0 {
            assert(b * k == 1_700_000 * t) by (nonlinear_arith)
                requires
                    k == 850_000,
                    b == 2 * t,
            ;
            assert(false);
        } else if q2 == 0 && q3 == 1 {
            assert(b * k == 1_700_000 * t) by (nonlinear_arith)
                requires
                    k == 850_000,
                    b == 2 * t,
            ;
            assert(false);
        } else if q2 == 2 && q3 == 0 {
            assert(b * k == 1_699_998 * t) by (nonlinear_arith)
                requires
                    k == 849_999,
                    b == 2 * t,
            ;
            assert(false);
        } else if q2 == 1 && q3 == 1 {
            assert(b * k == 1_699_998 * t) by (nonlinear_arith)
                requires
                    k == 849_999,
                    b == 2 * t,
            ;
            assert(false);
        } else {
            assert(q2 == 2 && q3 == 1);
            assert(b * k == 1_699_996 * t) by (nonlinear_arith)
                requires
                    k == 849_998,
                    b == 2 * t,
            ;
            assert(false);
        }
    }
}

/// Score upper bound: however the judgments fall, a state whose counts sum
/// to at most `total_notes` scores at most 1 000 000 points.
pub proof fn lemma_score_upper_bound(s: ScoreState)
    requires
        s.wf(),
    ensures
        s.spec_total_score() <= 1_000_000,
{
    if s.total_notes > 0 {
        lemma_play_pool_bound(
            s.great_count as int,
            s.cool_count as int,
            s.good_count as int,
            s.total_notes as int,
        );
    }
}

/// Perfect play: all notes Great and a full chain give exactly 1 000 000.
pub proof fn lemma_perfect_play(s: ScoreState)
    requires
        s.wf(),
        s.total_notes > 0,
        s.great_count == s.total_notes,
        s.max_chain == s.total_notes,
    ensures
        s.spec_total_score() == 1_000_000,
{
    let t = s.total_notes as int;
    assert(s.cool_count == 0 && s.good_count == 0);
    crate::fixed::lemma_round_div_exact(t, 850_000);
    assert(850_000 * t == 850_000 * t);
    assert(850_000 * s.great_count == 850_000 * t);
    crate::fixed::lemma_round_div_exact(t, 100_000);
    assert(100_000 * s.max_chain == 100_000 * t);
    crate::fixed::lemma_round_div_exact(t, 0);
    assert(680_000 * s.cool_count == 0 * t);
    assert(425_000 * s.good_count == 0 * t);
}

/// All-miss floor: with no non-miss judgment and no chain, the score is the
/// clear bonus alone.
pub proof fn lemma_all_miss_floor(s: ScoreState)
    requires
        s.wf(),
        s.great_count == 0,
        s.cool_count == 0,
        s.good_count == 0,
        s.max_chain == 0,
    ensures
        s.spec_total_score() == CLEAR_BONUS,
{
    if s.total_notes > 0 {
        let t = s.total_notes as int;
        crate::fixed::lemma_round_div_exact(t, 0);
        assert(850_000 * s.great_count == 0 * t);
        assert(680_000 * s.cool_count == 0 * t);
        assert(425_000 * s.good_count == 0 * t);
        assert(100_000 * s.max_chain == 0 * t);
    }
}

} // verus!
