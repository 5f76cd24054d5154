//! A game session: the deck plus the append-only round history, with the
//! cross-round subround probability.
//!
//! When a round triggers a reshuffle, `subround_chance` walks the history
//! backward to the previous reshuffle boundary and multiplies, round by
//! round, the conditional probability of each claimed composition given
//! the pool that remained at that point: the exact joint probability that
//! the whole claim sequence of the span was truthful.

use vstd::prelude::*;

use crate::cards::{Card, Draw, spec_fasc_count, spec_lib_count, spec_class_of, claim_to_tuple};
use crate::combinatorics::{
    spec_choose, m_choose, lemma_choose_le_pow2, lemma_pow2_mono, lemma_choose_three,
    lemma_vandermonde_three, pow2,
};
use crate::deck::{
    Deck, spec_round, spec_round_shuffles, spec_new_deck, spec_lib_left, spec_fasc_left,
    LIBERAL_TOTAL, FASCIST_TOTAL,
};
use crate::prob::{Prob, spec_zero_prob, zero_prob, spec_prob_small};
use crate::stats::{
    Stats, compute_stats, stats_matches, spec_chance_seq, comp_num, comp_den,
    lemma_chance_seq_lookup,
};

verus! {

/// The immutable record of one completed round.  `subround_prob` is
/// written once, immediately after the record is appended, and only when
/// the round reshuffled.
#[derive(Debug, Clone, Copy, PartialEq, Eq, Structural)]
pub struct Round {
    /// Presiding player id.
    pub pres: u32,
    /// The claimed draw (a fixed all-liberal placeholder for topdecks).
    pub draw: Draw,
    /// The card actually played.
    pub res: Card,
    /// Probability of the claim, from the snapshot before the round.
    pub prob: Prob,
    /// Whether this round was a topdeck.
    pub topdeck: bool,
    /// Whether this round triggered a reshuffle.
    pub shuffled: bool,
    /// Joint probability of the span's claims; zero unless `shuffled`.
    pub subround_prob: Prob,
}

/// One game: the deck and the ordered history of its rounds.
#[derive(Debug, Clone)]
pub struct GameState {
    /// Current deck state.
    pub deck: Deck,
    /// Number of completed rounds.
    pub current_round: u32,
    /// The completed rounds, oldest first.
    pub rounds: Vec<Round>,
}

/// How many recorded rounds played the given card.
pub open spec fn count_plays(rounds: Seq<Round>, c: Card) -> nat
    decreases rounds.len(),
{
    if rounds.len() == 0 {
        0
    } else {
        (if rounds[0].res == c {
            1nat
        } else {
            0nat
        }) + count_plays(rounds.drop_first(), c)
    }
}

impl GameState {
    /// The deck's play counters agree with the recorded history.  Every
    /// state reachable from `GameState::new` satisfies this.
    pub open spec fn wf(self) -> bool {
        &&& self.deck.wf()
        &&& self.current_round == self.rounds@.len()
        &&& self.deck.liberals_played == count_plays(self.rounds@, Card::Liberal)
        &&& self.deck.fascists_played == count_plays(self.rounds@, Card::Fascist)
    }

    /// A fresh game on a full deck with no history.
    pub fn new() -> (g: GameState)
        ensures
            g.wf(),
            g.deck == spec_new_deck(),
            g.current_round == 0,
            g.rounds@.len() == 0,
    {
        GameState { deck: Deck::new(), current_round: 0, rounds: Vec::new() }
    }

    /// The record of an already completed round.
    pub fn past_round(&self, round: usize) -> (r: Round)
        requires
            round < self.rounds@.len(),
        ensures
            r == self.rounds@[round as int],
    {
        self.rounds[round]
    }

    /// The joint probability that every claim of the current subround --
    /// the span of rounds drawn since the previous reshuffle boundary --
    /// was simultaneously truthful, given the faction counts at the start
    /// of the span.  The result is exact and never exceeds one.
    pub fn subround_chance(&self) -> (r: Prob)
        requires
            self.wf(),
        ensures
            r.num == spec_subround_val(self.deck, self.rounds@).0,
            r.den == spec_subround_val(self.deck, self.rounds@).1,
            r.num <= r.den,
            1 <= r.den,
    {
        let ghost rs = self.rounds@;
        let len = self.rounds.len();
        proof {
            lemma_count_total(rs);
            assert(rs.subrange(len as int, len as int) =~= Seq::<Round>::empty());
        }
        let mut k: usize = len;
        let mut first = false;
        let mut libp: u32 = 0;
        let mut fascp: u32 = 0;
        while k > 0
            invariant
                rs == self.rounds@,
                len == rs.len(),
                len <= 17,
                0 <= k <= len,
                spec_span_start(rs, len as int, false) == spec_span_start(rs, k as int, first),
                libp == count_plays(rs.subrange(k as int, len as int), Card::Liberal),
                fascp == count_plays(rs.subrange(k as int, len as int), Card::Fascist),
                libp + fascp == len - k,
            ensures
                rs == self.rounds@,
                0 <= k <= len,
                k == spec_span_start(rs, len as int, false),
                libp == count_plays(rs.subrange(k as int, len as int), Card::Liberal),
                fascp == count_plays(rs.subrange(k as int, len as int), Card::Fascist),
                libp + fascp == len - k,
            decreases k,
        {
            let r = self.rounds[k - 1];
            if r.shuffled && !first {
                first = true;
            } else if r.shuffled {
                proof {
                    assert(spec_span_start(rs, k as int, first) == k as int);
                }
                break ;
            }
            proof {
                assert(rs.subrange(k - 1, len as int)[0] == rs[k - 1]);
                assert(rs.subrange(k - 1, len as int).drop_first() =~= rs.subrange(
                    k as int,
                    len as int,
                ));
            }
            match r.res {
                Card::Liberal => {
                    libp = libp + 1;
                },
                Card::Fascist => {
                    fascp = fascp + 1;
                },
            }
            k = k - 1;
        }
        let start = k;
        proof {
            lemma_count_suffix_le(rs, start as int, Card::Liberal);
            lemma_count_suffix_le(rs, start as int, Card::Fascist);
            assert(rs.subrange(0, rs.len() as int) =~= rs);
        }
        let subbed_l = self.deck.liberals_played - libp;
        let subbed_f = self.deck.fascists_played - fascp;
        let gl0: u32 = if subbed_l >= LIBERAL_TOTAL {
            0
        } else {
            LIBERAL_TOTAL - subbed_l
        };
        let gf0: u32 = if subbed_f >= FASCIST_TOTAL {
            0
        } else {
            FASCIST_TOTAL - subbed_f
        };
        let mut gl = gl0;
        let mut gf = gf0;
        let mut num: u64 = 1;
        let mut den: u64 = 1;
        let mut j = start;
        proof {
            assert(pow680(0) == 1);
        }
        while j < len
            invariant
                rs == self.rounds@,
                len == rs.len(),
                start <= j <= len,
                gl0 <= LIBERAL_TOTAL,
                gf0 <= FASCIST_TOTAL,
                gl <= gl0,
                gf <= gf0,
                num <= den,
                1 <= den,
                num == 0 ==> den == 1,
                num >= 1 ==> den <= pow680((j - start) as nat),
                num >= 1 ==> gl + gf + 3 * (j - start) == gl0 + gf0,
                spec_sub_from(rs, start as int, gl0 as nat, gf0 as nat, 1, 1) == spec_sub_from(
                    rs,
                    j as int,
                    gl as nat,
                    gf as nat,
                    num as nat,
                    den as nat,
                ),
            decreases len - j,
        {
            let rd = self.rounds[j];
            let (f, l) = claim_to_tuple(rd.draw);
            proof {
                lemma_choose_term_le(
                    spec_lib_count(rd.draw),
                    spec_fasc_count(rd.draw),
                    gl as nat,
                    gf as nat,
                );
                lemma_choose3_le_680((gl + gf) as nat);
                lemma_small_choose_bounds(gl as nat, gf as nat);
                if num >= 1 {
                    lemma_pow680_mono((j - start) as nat, 5);
                    lemma_pow680_five();
                }
            }
            let fnum = m_choose(l as u64, gl as u64) * m_choose(f as u64, gf as u64);
            let fden0 = m_choose(3, (gl + gf) as u64);
            let fden = if fden0 == 0 {
                1
            } else {
                fden0
            };
            proof {
                assert(num * fnum <= den * fden) by (nonlinear_arith)
                    requires
                        num <= den,
                        fnum <= fden,
                {}
                assert(den * fden <= 145393356800000u64 * 680) by (nonlinear_arith)
                    requires
                        den <= 145393356800000u64,
                        fden <= 680,
                {}
            }
            let num2 = num * fnum;
            let den2 = den * fden;
            if num2 == 0 {
                num = 0;
                den = 1;
            } else {
                proof {
                    assert(fnum >= 1 && num >= 1) by (nonlinear_arith)
                        requires
                            num * fnum != 0,
                    {}
                    assert(fnum == spec_choose(spec_lib_count(rd.draw), gl as nat) * spec_choose(
                        spec_fasc_count(rd.draw),
                        gf as nat,
                    ));
                    assert(spec_choose(spec_lib_count(rd.draw), gl as nat) >= 1 && spec_choose(
                        spec_fasc_count(rd.draw),
                        gf as nat,
                    ) >= 1) by (nonlinear_arith)
                        requires
                            spec_choose(spec_lib_count(rd.draw), gl as nat) * spec_choose(
                                spec_fasc_count(rd.draw),
                                gf as nat,
                            ) >= 1,
                    {}
                    assert(l <= gl && f <= gf);
                    assert(den2 <= pow680((j + 1 - start) as nat)) by {
                        assert(den * fden <= pow680((j - start) as nat) * 680)
                            by (nonlinear_arith)
                            requires
                                den <= pow680((j - start) as nat),
                                fden <= 680,
                        {}
                        assert(pow680((j + 1 - start) as nat) == 680 * pow680(
                            (j - start) as nat,
                        ));
                    }
                }
                num = num2;
                den = den2;
            }
            gl = if gl >= l {
                gl - l
            } else {
                0
            };
            gf = if gf >= f {
                gf - f
            } else {
                0
            };
            j = j + 1;
        }
        Prob { num, den }
    }
}

/// The probability recorded for a claimed round: the snapshot probability
/// of the claim's composition class, before the round is applied.
pub open spec fn spec_claim_prob(d: Deck, claim: Draw) -> Prob {
    Prob { num: comp_num(d, spec_class_of(claim)) as u64, den: comp_den(d) as u64 }
}

/// The probability recorded for a topdeck: the single-card probability of
/// the played faction, before the round is applied.
pub open spec fn spec_topdeck_prob(d: Deck, res: Card) -> Prob {
    match res {
        Card::Fascist => Prob { num: spec_fasc_left(d) as u64, den: d.draw as u64 },
        Card::Liberal => Prob { num: spec_lib_left(d) as u64, den: d.draw as u64 },
    }
}

/// The record appended by a claimed round, before the subround backfill.
pub open spec fn spec_claim_record_base(g: GameState, pres: u32, claim: Draw, res: Card) -> Round {
    Round {
        pres: pres,
        draw: claim,
        res: res,
        prob: spec_claim_prob(g.deck, claim),
        topdeck: false,
        shuffled: spec_round_shuffles(g.deck, Some(claim), res),
        subround_prob: spec_zero_prob(),
    }
}

/// The record appended by a topdeck, before the subround backfill; the
/// claim slot holds a fixed all-liberal placeholder.
pub open spec fn spec_topdeck_record_base(g: GameState, res: Card) -> Round {
    Round {
        pres: 0,
        draw: Draw(Card::Liberal, Card::Liberal, Card::Liberal),
        res: res,
        prob: spec_topdeck_prob(g.deck, res),
        topdeck: true,
        shuffled: spec_round_shuffles(g.deck, None, res),
        subround_prob: spec_zero_prob(),
    }
}

/// The one write a record receives after being appended: when its round
/// reshuffled, the subround probability of the history as then recorded
/// (the record itself included, still carrying a zero in that slot).
pub open spec fn spec_backfill(deck2: Deck, hist: Seq<Round>, base: Round) -> Round {
    if base.shuffled {
        let v = spec_subround_val(deck2, hist);
        Round { subround_prob: Prob { num: v.0 as u64, den: v.1 as u64 }, ..base }
    } else {
        base
    }
}

/// The finished record of a claimed round.
pub open spec fn spec_claim_record(g: GameState, pres: u32, claim: Draw, res: Card) -> Round {
    let base = spec_claim_record_base(g, pres, claim, res);
    spec_backfill(spec_round(g.deck, Some(claim), res), g.rounds@.push(base), base)
}

/// The finished record of a topdeck round.
pub open spec fn spec_topdeck_record(g: GameState, res: Card) -> Round {
    let base = spec_topdeck_record_base(g, res);
    spec_backfill(spec_round(g.deck, None, res), g.rounds@.push(base), base)
}

/// Applies one claimed round to the game: scores the claim against the
/// snapshot before the round, advances the deck, appends the record, and
/// backfills the subround probability if the round reshuffled.  Returns
/// the snapshot after the round, for the caller's next decision.
pub fn do_claim_round(game: &mut GameState, pres: u32, claim: Draw, res: Card) -> (s: Stats)
    requires
        old(game).wf(),
        old(game).deck.draw >= 3,
        spec_round(old(game).deck, Some(claim), res).draw >= 3,
    ensures
        final(game).wf(),
        final(game).deck == spec_round(old(game).deck, Some(claim), res),
        final(game).current_round == old(game).current_round + 1,
        final(game).rounds@ == old(game).rounds@.push(
            spec_claim_record(*old(game), pres, claim, res),
        ),
        stats_matches(final(game).deck, s),
        !spec_round_shuffles(old(game).deck, Some(claim), res) ==> spec_claim_record(
            *old(game),
            pres,
            claim,
            res,
        ).subround_prob == spec_zero_prob(),
{
    let ghost g0 = *game;
    let prev_stats = compute_stats(&game.deck).unwrap();
    let prob = prev_stats.chance(claim);
    proof {
        lemma_recorded_claim_prob(g0.deck, prev_stats, claim, prob);
        lemma_count_total(g0.rounds@);
    }
    let shuffled = game.deck.round(Some(claim), &res);
    let stats = compute_stats(&game.deck).unwrap();
    game.current_round = game.current_round + 1;
    let r0 = Round {
        pres,
        draw: claim,
        res,
        prob,
        topdeck: false,
        shuffled,
        subround_prob: zero_prob(),
    };
    game.rounds.push(r0);
    proof {
        lemma_count_push(g0.rounds@, r0, Card::Liberal);
        lemma_count_push(g0.rounds@, r0, Card::Fascist);
        assert(game.wf());
        assert(r0 == spec_claim_record_base(g0, pres, claim, res));
    }
    let subprob = if shuffled {
        game.subround_chance()
    } else {
        zero_prob()
    };
    let mut lastr = game.rounds.pop().unwrap();
    lastr.subround_prob = subprob;
    game.rounds.push(lastr);
    proof {
        assert(game.rounds@ =~= g0.rounds@.push(lastr));
        lemma_count_push(g0.rounds@, lastr, Card::Liberal);
        lemma_count_push(g0.rounds@, lastr, Card::Fascist);
        assert(lastr == spec_claim_record(g0, pres, claim, res));
    }
    stats
}

/// Applies one topdeck round: a single forced draw with no claim, scored
/// with the pre-round topdeck probability of the played faction.
pub fn do_topdeck(game: &mut GameState, res: Card) -> (s: Stats)
    requires
        old(game).wf(),
        old(game).deck.draw >= 3,
        spec_round(old(game).deck, None, res).draw >= 3,
    ensures
        final(game).wf(),
        final(game).deck == spec_round(old(game).deck, None, res),
        final(game).current_round == old(game).current_round + 1,
        final(game).rounds@ == old(game).rounds@.push(spec_topdeck_record(*old(game), res)),
        stats_matches(final(game).deck, s),
        !spec_round_shuffles(old(game).deck, None, res) ==> spec_topdeck_record(
            *old(game),
            res,
        ).subround_prob == spec_zero_prob(),
{
    let ghost g0 = *game;
    let prev_stats = compute_stats(&game.deck).unwrap();
    let prob = prev_stats.chance_topdeck(res);
    proof {
        lemma_count_total(g0.rounds@);
    }
    let shuffled = game.deck.round(None, &res);
    let stats = compute_stats(&game.deck).unwrap();
    game.current_round = game.current_round + 1;
    let r0 = Round {
        pres: 0,
        draw: Draw::new(Card::Liberal, Card::Liberal, Card::Liberal),
        res,
        prob,
        topdeck: true,
        shuffled,
        subround_prob: zero_prob(),
    };
    game.rounds.push(r0);
    proof {
        lemma_count_push(g0.rounds@, r0, Card::Liberal);
        lemma_count_push(g0.rounds@, r0, Card::Fascist);
        assert(game.wf());
        assert(r0 == spec_topdeck_record_base(g0, res));
    }
    let subprob = if shuffled {
        game.subround_chance()
    } else {
        zero_prob()
    };
    let mut lastr = game.rounds.pop().unwrap();
    lastr.subround_prob = subprob;
    game.rounds.push(lastr);
    proof {
        assert(game.rounds@ =~= g0.rounds@.push(lastr));
        lemma_count_push(g0.rounds@, lastr, Card::Liberal);
        lemma_count_push(g0.rounds@, lastr, Card::Fascist);
        assert(lastr == spec_topdeck_record(g0, res));
    }
    stats
}

/// The probability a claimed round records is exactly the snapshot
/// probability of the claim's composition class.
proof fn lemma_recorded_claim_prob(d: Deck, st: Stats, claim: Draw, prob: Prob)
    requires
        stats_matches(d, st),
        prob == spec_chance_seq(st.rank@, spec_class_of(claim)),
    ensures
        prob == spec_claim_prob(d, claim),
{
    let c = spec_class_of(claim);
    let rk = st.rank@;
    assert(crate::stats::has_class(rk, c));
    let w = choose|i: int| 0 <= i < rk.len() && (#[trigger] rk[i]).1 == c;
    assert(rk[w].0.num == comp_num(d, c) && rk[w].0.den == comp_den(d));
    assert(spec_prob_small(rk[w].0));
    assert forall|i: int| 0 <= i < rk.len() && (#[trigger] rk[i]).1 == c implies rk[i].0 == rk[w].0
        by {
        assert(rk[i].0.num == comp_num(d, c) && rk[i].0.den == comp_den(d));
    }
    lemma_chance_seq_lookup(rk, c, rk[w].0);
}

/// Saturating subtraction on naturals.
pub open spec fn sat_sub(a: nat, b: nat) -> nat {
    if a >= b {
        (a - b) as nat
    } else {
        0
    }
}

/// The first index of the current subround: scanning backward from `i`,
/// the walk keeps rounds until it would cross a second reshuffle boundary.
pub open spec fn spec_span_start(rounds: Seq<Round>, i: int, seen: bool) -> int
    decreases i,
{
    if i <= 0 {
        0
    } else if rounds[i - 1].shuffled && seen {
        i
    } else {
        spec_span_start(rounds, i - 1, seen || rounds[i - 1].shuffled)
    }
}

/// The running product of per-round conditional claim probabilities over
/// `rounds[j..]`, starting from pool `(gl, gf)` and accumulator
/// `num / den`.  Each factor is the ways of drawing the claimed
/// composition from the pool over the ways of drawing any three cards; a
/// zero product is kept in the canonical form `0 / 1`.
pub open spec fn spec_sub_from(
    rounds: Seq<Round>,
    j: int,
    gl: nat,
    gf: nat,
    num: nat,
    den: nat,
) -> (nat, nat)
    decreases rounds.len() - j,
{
    if j < 0 || j >= rounds.len() {
        (num, den)
    } else {
        let l = spec_lib_count(rounds[j].draw);
        let f = spec_fasc_count(rounds[j].draw);
        let fnum = spec_choose(l, gl) * spec_choose(f, gf);
        let fden0 = spec_choose(3, gl + gf);
        let fden: nat = if fden0 == 0 {
            1
        } else {
            fden0
        };
        let num2 = num * fnum;
        let den2 = den * fden;
        if num2 == 0 {
            spec_sub_from(rounds, j + 1, sat_sub(gl, l), sat_sub(gf, f), 0, 1)
        } else {
            spec_sub_from(rounds, j + 1, sat_sub(gl, l), sat_sub(gf, f), num2, den2)
        }
    }
}

/// The subround probability of a history: the joint probability of the
/// claims of the current span, conditioned on the faction counts at the
/// span's start (reconstructed by undoing the span's plays, clamped at
/// zero to tolerate inconsistent histories).
pub open spec fn spec_subround_val(deck: Deck, rounds: Seq<Round>) -> (nat, nat) {
    let len = rounds.len() as int;
    let start = spec_span_start(rounds, len, false);
    let libp = count_plays(rounds.subrange(start, len), Card::Liberal);
    let fascp = count_plays(rounds.subrange(start, len), Card::Fascist);
    let gl0 = clamp0(LIBERAL_TOTAL - deck.liberals_played + libp);
    let gf0 = clamp0(FASCIST_TOTAL - deck.fascists_played + fascp);
    spec_sub_from(rounds, start, gl0, gf0, 1, 1)
}

/// Non-negative part of an integer.
pub open spec fn clamp0(x: int) -> nat {
    if x >= 0 {
        x as nat
    } else {
        0
    }
}

/// The running product stays a probability: with an accumulator of at
/// most one, every suffix product is at most one.
proof fn lemma_sub_from_le_one(rounds: Seq<Round>, j: int, gl: nat, gf: nat, num: nat, den: nat)
    requires
        num <= den,
        1 <= den,
    ensures
        spec_sub_from(rounds, j, gl, gf, num, den).0 <= spec_sub_from(
            rounds,
            j,
            gl,
            gf,
            num,
            den,
        ).1,
        1 <= spec_sub_from(rounds, j, gl, gf, num, den).1,
    decreases rounds.len() - j,
{
    if j < 0 || j >= rounds.len() {
    } else {
        let l = spec_lib_count(rounds[j].draw);
        let f = spec_fasc_count(rounds[j].draw);
        let fnum = spec_choose(l, gl) * spec_choose(f, gf);
        let fden0 = spec_choose(3, gl + gf);
        let fden: nat = if fden0 == 0 {
            1nat
        } else {
            fden0
        };
        lemma_choose_term_le(l, f, gl, gf);
        assert(fnum <= fden);
        assert(num * fnum <= den * fden && 1 <= den * fden) by (nonlinear_arith)
            requires
                num <= den,
                fnum <= fden,
                1 <= den,
                1 <= fden,
        {}
        if num * fnum == 0 {
            lemma_sub_from_le_one(rounds, j + 1, sat_sub(gl, l), sat_sub(gf, f), 0, 1);
        } else {
            lemma_sub_from_le_one(
                rounds,
                j + 1,
                sat_sub(gl, l),
                sat_sub(gf, f),
                num * fnum,
                den * fden,
            );
        }
    }
}

/// A subround probability never exceeds one: its numerator is at most its
/// denominator, which is positive.
pub proof fn lemma_subround_le_one(deck: Deck, rounds: Seq<Round>)
    ensures
        spec_subround_val(deck, rounds).0 <= spec_subround_val(deck, rounds).1,
        1 <= spec_subround_val(deck, rounds).1,
{
    let len = rounds.len() as int;
    let start = spec_span_start(rounds, len, false);
    let libp = count_plays(rounds.subrange(start, len), Card::Liberal);
    let fascp = count_plays(rounds.subrange(start, len), Card::Fascist);
    let gl0 = clamp0(LIBERAL_TOTAL - deck.liberals_played + libp);
    let gf0 = clamp0(FASCIST_TOTAL - deck.fascists_played + fascp);
    lemma_sub_from_le_one(rounds, start, gl0, gf0, 1, 1);
}

/// Every recorded play is one of the two cards.
proof fn lemma_count_total(s: Seq<Round>)
    ensures
        count_plays(s, Card::Liberal) + count_plays(s, Card::Fascist) == s.len(),
    decreases s.len(),
{
    if s.len() > 0 {
        lemma_count_total(s.drop_first());
    }
}

/// Appending a round adds its play to the count.
proof fn lemma_count_push(s: Seq<Round>, r: Round, c: Card)
    ensures
        count_plays(s.push(r), c) == count_plays(s, c) + (if r.res == c {
            1nat
        } else {
            0nat
        }),
    decreases s.len(),
{
    if s.len() == 0 {
        assert(s.push(r)[0] == r);
        assert(s.push(r).drop_first() =~= Seq::<Round>::empty());
        assert(count_plays(Seq::<Round>::empty(), c) == 0);
    } else {
        assert(s.push(r)[0] == s[0]);
        assert(s.push(r).drop_first() =~= s.drop_first().push(r));
        lemma_count_push(s.drop_first(), r, c);
    }
}

/// A suffix never counts more plays than the whole history.
proof fn lemma_count_suffix_le(s: Seq<Round>, k: int, c: Card)
    requires
        0 <= k <= s.len(),
    ensures
        count_plays(s.subrange(k, s.len() as int), c) <= count_plays(s, c),
    decreases k,
{
    if k == 0 {
        assert(s.subrange(0, s.len() as int) =~= s);
    } else {
        lemma_count_suffix_le(s, k - 1, c);
        assert(s.subrange(k - 1, s.len() as int)[0] == s[k - 1]);
        assert(s.subrange(k - 1, s.len() as int).drop_first() =~= s.subrange(k, s.len() as int));
    }
}

/// Spec-level powers of 680, the largest per-round denominator factor.
spec fn pow680(e: nat) -> nat
    decreases e,
{
    if e == 0 {
        1
    } else {
        680 * pow680((e - 1) as nat)
    }
}

proof fn lemma_pow680_pos(e: nat)
    ensures
        pow680(e) >= 1,
    decreases e,
{
    if e > 0 {
        lemma_pow680_pos((e - 1) as nat);
        assert(680 * pow680((e - 1) as nat) >= 1) by (nonlinear_arith)
            requires
                pow680((e - 1) as nat) >= 1,
        {}
    }
}

proof fn lemma_pow680_mono(e1: nat, e2: nat)
    requires
        e1 <= e2,
    ensures
        pow680(e1) <= pow680(e2),
    decreases e2,
{
    lemma_pow680_pos(e1);
    if e1 < e2 {
        lemma_pow680_mono(e1, (e2 - 1) as nat);
        assert(pow680((e2 - 1) as nat) <= 680 * pow680((e2 - 1) as nat)) by (nonlinear_arith)
            requires
                pow680((e2 - 1) as nat) >= 0,
        {}
    }
}

proof fn lemma_pow680_five()
    ensures
        pow680(5) == 145393356800000,
{
    reveal_with_fuel(pow680, 6);
}

/// One composition's ways never exceed the pool's total three-card ways:
/// the product is one term of the Vandermonde split of the pool.
proof fn lemma_choose_term_le(l: nat, f: nat, gl: nat, gf: nat)
    requires
        l + f == 3,
    ensures
        spec_choose(l, gl) * spec_choose(f, gf) <= spec_choose(3, gl + gf),
{
    lemma_vandermonde_three(gf, gl);
    if l == 0 {
        assert(spec_choose(0, gl) == 1);
        assert(spec_choose(0, gl) * spec_choose(3, gf) == spec_choose(3, gf)) by (nonlinear_arith)
            requires
                spec_choose(0, gl) == 1,
        {}
    } else if l == 1 {
        assert(spec_choose(1, gl) * spec_choose(2, gf) == spec_choose(2, gf) * spec_choose(1, gl))
            by (nonlinear_arith);
    } else if l == 2 {
        assert(spec_choose(2, gl) * spec_choose(1, gf) == spec_choose(1, gf) * spec_choose(2, gl))
            by (nonlinear_arith);
    } else {
        assert(spec_choose(0, gf) == 1);
        assert(spec_choose(3, gl) * spec_choose(0, gf) == spec_choose(3, gl)) by (nonlinear_arith)
            requires
                spec_choose(0, gf) == 1,
        {}
    }
}

/// Three-card ways from at most seventeen cards stay at or below 680.
proof fn lemma_choose3_le_680(n: nat)
    requires
        n <= 17,
    ensures
        spec_choose(3, n) <= 680,
{
    lemma_choose_three(n);
    assert(6 * spec_choose(3, n) <= 4080) by (nonlinear_arith)
        requires
            n <= 17,
            6 * spec_choose(3, n) == n * (n - 1) * (n - 2),
    {}
}

/// The per-round numerator factors stay small for any pool the engine
/// can reach.
proof fn lemma_small_choose_bounds(gl: nat, gf: nat)
    requires
        gl <= 6,
        gf <= 11,
    ensures
        forall|k: nat| spec_choose(k, gl) <= 64,
        forall|k: nat| spec_choose(k, gf) <= 2048,
        forall|k1: nat, k2: nat|
            #[trigger] (spec_choose(k1, gl) * spec_choose(k2, gf)) <= 131072,
{
    assert(pow2(6) == 64 && pow2(11) == 2048) by {
        reveal_with_fuel(pow2, 12);
    }
    assert forall|k: nat| spec_choose(k, gl) <= 64 by {
        lemma_choose_le_pow2(k, gl);
        lemma_pow2_mono(gl, 6);
    }
    assert forall|k: nat| spec_choose(k, gf) <= 2048 by {
        lemma_choose_le_pow2(k, gf);
        lemma_pow2_mono(gf, 11);
    }
    assert forall|k1: nat, k2: nat|
        #[trigger] (spec_choose(k1, gl) * spec_choose(k2, gf)) <= 131072 by {
        assert(spec_choose(k1, gl) <= 64);
        assert(spec_choose(k2, gf) <= 2048);
        assert(spec_choose(k1, gl) * spec_choose(k2, gf) <= 131072) by (nonlinear_arith)
            requires
                spec_choose(k1, gl) <= 64,
                spec_choose(k2, gf) <= 2048,
        {}
    }
}

} // verus!
