//! The likelihood model: hypergeometric probabilities for one deck state.
//!
//! `compute_stats` evaluates, for a deck with at least three cards, the
//! exact probability of each of the four three-card draw compositions and
//! of each single-card topdeck, and ranks the four compositions by
//! probability (descending, ties keeping the fixed composition order
//! `Rrr, Rbb, Rrb, Bbb`).

use vstd::prelude::*;

use crate::cards::{Draw, Card, CompClass, spec_class_of, claim_class};
use crate::combinatorics::{
    spec_choose, m_choose, lemma_choose_pos, lemma_choose_one, lemma_choose_le_pow2,
    lemma_pow2_mono, pow2,
};
use crate::deck::{Deck, spec_lib_left, spec_fasc_left};
use crate::prob::{Prob, spec_prob_ge, spec_prob_small, spec_zero_prob, prob_ge, zero_prob};

verus! {

/// A ranked snapshot of the deck's draw distribution.
#[derive(Debug, Clone)]
pub struct Stats {
    /// The four composition probabilities, most likely first.
    pub rank: Vec<(Prob, CompClass)>,
    /// Liberal cards still unaccounted for.
    pub lib_left: u32,
    /// Fascist cards still unaccounted for.
    pub fasc_left: u32,
    /// Probability that a single topdecked card is liberal.
    pub topdeck_lib: Prob,
    /// Probability that a single topdecked card is fascist.
    pub topdeck_fasc: Prob,
}

/// Ways of drawing any three cards from the deck's draw pile.
pub open spec fn comp_den(d: Deck) -> nat {
    spec_choose(3, d.draw as nat)
}

/// Ways of drawing three cards of the given composition from the pool of
/// unaccounted-for cards.
pub open spec fn comp_num(d: Deck, c: CompClass) -> nat {
    let f = spec_fasc_left(d);
    let l = spec_lib_left(d);
    match c {
        CompClass::Rrr => spec_choose(3, f),
        CompClass::Rrb => spec_choose(2, f) * spec_choose(1, l),
        CompClass::Rbb => spec_choose(1, f) * spec_choose(2, l),
        CompClass::Bbb => spec_choose(3, l),
    }
}

/// The ranking is sorted by descending probability.
pub open spec fn sorted_desc(r: Seq<(Prob, CompClass)>) -> bool {
    forall|i: int, j: int|
        #![trigger r[i], r[j]]
        0 <= i <= j < r.len() ==> spec_prob_ge(r[i].0, r[j].0)
}

/// Every entry's probability is small enough for exact comparison.
pub open spec fn rank_bounded(r: Seq<(Prob, CompClass)>) -> bool {
    forall|i: int| 0 <= i < r.len() ==> spec_prob_small((#[trigger] r[i]).0)
}

/// Some entry of the ranking carries the given composition class.
pub open spec fn has_class(r: Seq<(Prob, CompClass)>, c: CompClass) -> bool {
    exists|i: int| 0 <= i < r.len() && (#[trigger] r[i]).1 == c
}

/// Every entry's probability is the deck's probability of its class.
pub open spec fn rank_entries_match(d: Deck, r: Seq<(Prob, CompClass)>) -> bool {
    forall|i: int|
        0 <= i < r.len() ==> (#[trigger] r[i]).0.num == comp_num(d, r[i].1) && r[i].0.den
            == comp_den(d)
}

/// What a `Stats` value says about the deck it was computed from.
pub open spec fn stats_matches(d: Deck, s: Stats) -> bool {
    &&& s.lib_left == spec_lib_left(d)
    &&& s.fasc_left == spec_fasc_left(d)
    &&& s.topdeck_lib.num == spec_lib_left(d)
    &&& s.topdeck_lib.den == d.draw
    &&& s.topdeck_fasc.num == spec_fasc_left(d)
    &&& s.topdeck_fasc.den == d.draw
    &&& s.rank@.len() == 4
    &&& sorted_desc(s.rank@)
    &&& rank_bounded(s.rank@)
    &&& rank_entries_match(d, s.rank@)
    &&& has_class(s.rank@, CompClass::Rrr)
    &&& has_class(s.rank@, CompClass::Rrb)
    &&& has_class(s.rank@, CompClass::Rbb)
    &&& has_class(s.rank@, CompClass::Bbb)
    &&& comp_den(d) >= 1
}

/// The probability paired with the first entry of the given class, or the
/// rational zero when no entry has that class.
pub open spec fn spec_chance_seq(r: Seq<(Prob, CompClass)>, c: CompClass) -> Prob
    decreases r.len(),
{
    if r.len() == 0 {
        spec_zero_prob()
    } else if r[0].1 == c {
        r[0].0
    } else {
        spec_chance_seq(r.drop_first(), c)
    }
}

/// When every entry of a class carries one same probability and the class
/// is present, the lookup returns exactly that probability.
pub proof fn lemma_chance_seq_lookup(r: Seq<(Prob, CompClass)>, c: CompClass, p: Prob)
    requires
        forall|i: int| 0 <= i < r.len() && (#[trigger] r[i]).1 == c ==> r[i].0 == p,
        has_class(r, c),
    ensures
        spec_chance_seq(r, c) == p,
    decreases r.len(),
{
    if r.len() == 0 {
    } else if r[0].1 == c {
    } else {
        let t = r.drop_first();
        assert forall|i: int| 0 <= i < t.len() && (#[trigger] t[i]).1 == c implies t[i].0
            == p by {
            assert(t[i] == r[i + 1]);
        }
        let w = choose|i: int| 0 <= i < r.len() && (#[trigger] r[i]).1 == c;
        assert(w >= 1);
        assert(t[w - 1] == r[w]);
        assert(has_class(t, c));
        lemma_chance_seq_lookup(t, c, p);
    }
}

/// `>=` on probabilities with positive denominators is transitive.
pub proof fn lemma_prob_ge_trans(a: Prob, b: Prob, c: Prob) by (nonlinear_arith)
    requires
        spec_prob_ge(a, b),
        spec_prob_ge(b, c),
        b.den >= 1,
    ensures
        spec_prob_ge(a, c),
{
}

/// Inserts a probability into a descending ranking, after any entries of
/// equal probability, keeping the ranking sorted.
fn insert_ranked(v: &mut Vec<(Prob, CompClass)>, p: Prob, c: CompClass)
    requires
        sorted_desc(old(v)@),
        rank_bounded(old(v)@),
        spec_prob_small(p),
        old(v)@.len() < 8,
    ensures
        final(v)@.len() == old(v)@.len() + 1,
        sorted_desc(final(v)@),
        rank_bounded(final(v)@),
        final(v)@.contains((p, c)),
        forall|x: (Prob, CompClass)| old(v)@.contains(x) ==> final(v)@.contains(x),
        forall|i: int|
            0 <= i < final(v)@.len() ==> old(v)@.contains(#[trigger] final(v)@[i])
                || final(v)@[i] == (p, c),
{
    let ghost orig = v@;
    let mut i: usize = 0;
    while i < v.len()
        invariant
            v@ == orig,
            sorted_desc(v@),
            rank_bounded(v@),
            spec_prob_small(p),
            0 <= i <= v@.len(),
            forall|j: int| 0 <= j < i ==> spec_prob_ge((#[trigger] v@[j]).0, p),
        ensures
            v@ == orig,
            0 <= i <= v@.len(),
            forall|j: int| 0 <= j < i ==> spec_prob_ge((#[trigger] v@[j]).0, p),
            i < v@.len() ==> !spec_prob_ge(v@[i as int].0, p),
        decreases v@.len() - i,
    {
        if prob_ge(&v[i].0, &p) {
            i = i + 1;
        } else {
            break ;
        }
    }
    proof {
        assert forall|j: int| i <= j < v@.len() implies spec_prob_ge(p, (#[trigger] v@[j]).0) by {
            assert(spec_prob_ge(v@[i as int].0, v@[j].0));
            assert(spec_prob_ge(p, v@[i as int].0));
            lemma_prob_ge_trans(p, v@[i as int].0, v@[j].0);
        }
        orig.insert_ensures(i as int, (p, c));
    }
    v.insert(i, (p, c));
    proof {
        let s = v@;
        assert forall|a: int, b: int|
            #![trigger s[a], s[b]]
            0 <= a <= b < s.len() implies spec_prob_ge(s[a].0, s[b].0) by {
            if b < i {
                assert(s[a] == orig[a] && s[b] == orig[b]);
            } else if a > i {
                assert(s[a] == orig[a - 1] && s[b] == orig[b - 1]);
            } else if a < i && b == i {
                assert(s[a] == orig[a]);
            } else if a == i && b == i {
            } else if a == i && b > i {
                assert(s[b] == orig[b - 1]);
            } else {
                // a < i < b
                assert(s[a] == orig[a] && s[b] == orig[b - 1]);
                assert(spec_prob_ge(orig[a].0, p));
                assert(spec_prob_ge(p, orig[b - 1].0));
                lemma_prob_ge_trans(orig[a].0, p, orig[b - 1].0);
            }
        }
        assert(s[i as int] == (p, c));
        assert forall|k: int| 0 <= k < s.len() implies orig.contains(#[trigger] s[k]) || s[k] == (
            p,
            c,
        ) by {
            if k < i {
                assert(s[k] == orig[k]);
            } else if k > i {
                assert(s[k] == orig[k - 1]);
            }
        }
        assert forall|x: (Prob, CompClass)| orig.contains(x) implies s.contains(x) by {
            let w = choose|w: int| 0 <= w < orig.len() && orig[w] == x;
            if w < i {
                assert(s[w] == x);
            } else {
                assert(s[w + 1] == x);
            }
        }
        assert forall|k: int| 0 <= k < s.len() implies spec_prob_small((#[trigger] s[k]).0) by {
            if k < i {
                assert(s[k] == orig[k]);
            } else if k > i {
                assert(s[k] == orig[k - 1]);
            }
        }
    }
}

/// Computes the full probability snapshot of a deck, or nothing when the
/// draw pile holds fewer than three cards, in which case a three-card
/// distribution is undefined and the deck must reshuffle first.
pub fn compute_stats(deck: &Deck) -> (r: Option<Stats>)
    requires
        deck.draw <= 17,
    ensures
        r.is_some() <==> deck.draw >= 3,
        r.is_some() ==> stats_matches(*deck, r.unwrap()),
{
    let lib_left = deck.lib_left();
    let fasc_left = deck.fasc_left();
    if deck.draw < 3 {
        return None;
    }
    proof {
        lemma_choose_pos(3, deck.draw as nat);
        lemma_choose_pos(1, deck.draw as nat);
        lemma_choose_one(deck.draw as nat);
        lemma_choose_one(fasc_left as nat);
        lemma_choose_one(lib_left as nat);
        lemma_bounded_choose(fasc_left as nat, lib_left as nat, deck.draw as nat);
    }
    let choose_total = m_choose(3, deck.draw as u64);
    let rrr = Prob { num: m_choose(3, fasc_left as u64), den: choose_total };
    let rbb = Prob {
        num: m_choose(1, fasc_left as u64) * m_choose(2, lib_left as u64),
        den: choose_total,
    };
    let rrb = Prob {
        num: m_choose(2, fasc_left as u64) * m_choose(1, lib_left as u64),
        den: choose_total,
    };
    let bbb = Prob { num: m_choose(3, lib_left as u64), den: choose_total };

    let td_total = m_choose(1, deck.draw as u64);
    let topdeck_lib = Prob { num: m_choose(1, lib_left as u64), den: td_total };
    let topdeck_fasc = Prob { num: m_choose(1, fasc_left as u64), den: td_total };

    let mut rank: Vec<(Prob, CompClass)> = Vec::new();
    insert_ranked(&mut rank, rrr, CompClass::Rrr);
    insert_ranked(&mut rank, rbb, CompClass::Rbb);
    insert_ranked(&mut rank, rrb, CompClass::Rrb);
    insert_ranked(&mut rank, bbb, CompClass::Bbb);
    proof {
        assert forall|i: int|
            0 <= i < rank@.len() implies (#[trigger] rank@[i]).0.num == comp_num(
            *deck,
            rank@[i].1,
        ) && rank@[i].0.den == comp_den(*deck) by {
            assert(rank@[i] == (rrr, CompClass::Rrr) || rank@[i] == (rbb, CompClass::Rbb)
                || rank@[i] == (rrb, CompClass::Rrb) || rank@[i] == (bbb, CompClass::Bbb));
        }
    }
    Some(
        Stats {
            rank,
            lib_left,
            fasc_left,
            topdeck_lib,
            topdeck_fasc,
        },
    )
}

/// All binomial coefficients that feed one snapshot stay far below the
/// comparison bound.
proof fn lemma_bounded_choose(f: nat, l: nat, draw: nat)
    requires
        f <= 11,
        l <= 6,
        draw <= 17,
    ensures
        spec_choose(3, f) <= 0x20000,
        spec_choose(2, f) <= 0x20000,
        spec_choose(1, f) <= 11,
        spec_choose(3, l) <= 0x20000,
        spec_choose(2, l) <= 0x20000,
        spec_choose(1, l) <= 6,
        spec_choose(3, draw) <= 0x20000,
        spec_choose(1, f) * spec_choose(2, l) <= 0xFFFF_FFFF,
        spec_choose(2, f) * spec_choose(1, l) <= 0xFFFF_FFFF,
{
    lemma_choose_one(f);
    lemma_choose_one(l);
    assert(pow2(17) == 0x20000) by {
        reveal_with_fuel(pow2, 18);
    }
    lemma_choose_le_pow2(3, f);
    lemma_pow2_mono(f, 17);
    lemma_choose_le_pow2(2, f);
    lemma_choose_le_pow2(3, l);
    lemma_pow2_mono(l, 17);
    lemma_choose_le_pow2(2, l);
    lemma_choose_le_pow2(3, draw);
    lemma_pow2_mono(draw, 17);
    assert(spec_choose(1, f) * spec_choose(2, l) <= 0xFFFF_FFFF) by (nonlinear_arith)
        requires
            spec_choose(1, f) <= 11,
            spec_choose(2, l) <= 0x20000,
    {}
    assert(spec_choose(2, f) * spec_choose(1, l) <= 0xFFFF_FFFF) by (nonlinear_arith)
        requires
            spec_choose(2, f) <= 0x20000,
            spec_choose(1, l) <= 6,
    {}
}

impl Stats {
    /// The label of the i-th ranked composition, two letters per faction:
    /// `R` fascist, `B` liberal.
    pub fn rank_str(&self, i: usize) -> (r: String)
        requires
            i < self.rank@.len(),
        ensures
            r@ == spec_class_label(self.rank@[i as int].1),
    {
        proof {
            reveal_strlit("RRR");
            reveal_strlit("RRB");
            reveal_strlit("RBB");
            reveal_strlit("BBB");
        }
        match self.rank[i].1 {
            CompClass::Rrr => "RRR".to_owned(),
            CompClass::Rrb => "RRB".to_owned(),
            CompClass::Rbb => "RBB".to_owned(),
            CompClass::Bbb => "BBB".to_owned(),
        }
    }

    /// The probability of the i-th ranked composition.
    pub fn rank_f(&self, i: usize) -> (r: Prob)
        requires
            i < self.rank@.len(),
        ensures
            r == self.rank@[i as int].0,
    {
        self.rank[i].0
    }

    /// The ranked probability of the claimed draw's composition class.
    /// Any two claims of the same composition get the same probability,
    /// whatever the order of their cards.
    pub fn chance(&self, claim: Draw) -> (r: Prob)
        ensures
            r == spec_chance_seq(self.rank@, spec_class_of(claim)),
    {
        let tag = claim_class(claim);
        let ghost c = spec_class_of(claim);
        proof {
            assert(self.rank@.skip(0) =~= self.rank@);
        }
        let mut i: usize = 0;
        while i < self.rank.len()
            invariant
                0 <= i <= self.rank@.len(),
                spec_chance_seq(self.rank@, c) == spec_chance_seq(
                    self.rank@.skip(i as int),
                    c,
                ),
                tag == c,
                c == spec_class_of(claim),
            decreases self.rank@.len() - i,
        {
            proof {
                let s = self.rank@.skip(i as int);
                assert(s.len() == self.rank@.len() - i);
                assert(s[0] == self.rank@[i as int]);
                assert(s.drop_first() =~= self.rank@.skip(i as int + 1));
            }
            let entry = self.rank[i];
            if entry.1 == tag {
                proof {
                    assert(spec_chance_seq(self.rank@.skip(i as int), c) == entry.0);
                }
                return entry.0;
            }
            i = i + 1;
        }
        proof {
            assert(self.rank@.skip(i as int).len() == 0);
        }
        zero_prob()
    }

    /// The topdeck probability of the given single card.
    pub fn chance_topdeck(&self, res: Card) -> (r: Prob)
        ensures
            r == match res {
                Card::Fascist => self.topdeck_fasc,
                Card::Liberal => self.topdeck_lib,
            },
    {
        match res {
            Card::Fascist => self.topdeck_fasc,
            Card::Liberal => self.topdeck_lib,
        }
    }
}

/// The fixed label of each composition class.
pub open spec fn spec_class_label(c: CompClass) -> Seq<char> {
    match c {
        CompClass::Rrr => seq!['R', 'R', 'R'],
        CompClass::Rrb => seq!['R', 'R', 'B'],
        CompClass::Rbb => seq!['R', 'B', 'B'],
        CompClass::Bbb => seq!['B', 'B', 'B'],
    }
}

/// The four composition probabilities of any consistent deck sum to
/// exactly one: their numerators sum to the common denominator.
pub proof fn lemma_comp_probs_sum_to_one(d: Deck)
    requires
        d.draw >= 3,
        spec_lib_left(d) + spec_fasc_left(d) == d.draw,
    ensures
        comp_num(d, CompClass::Rrr) + comp_num(d, CompClass::Rrb) + comp_num(d, CompClass::Rbb)
            + comp_num(d, CompClass::Bbb) == comp_den(d),
        comp_den(d) >= 1,
{
    crate::combinatorics::lemma_vandermonde_three(spec_fasc_left(d), spec_lib_left(d));
    lemma_choose_pos(3, d.draw as nat);
}

/// The two topdeck probabilities of any consistent deck sum to exactly
/// one: their numerators sum to the common denominator, the pile size.
pub proof fn lemma_topdeck_sum_to_one(d: Deck, s: Stats)
    requires
        d.draw >= 1,
        spec_lib_left(d) + spec_fasc_left(d) == d.draw,
        stats_matches(d, s),
    ensures
        s.topdeck_lib.num + s.topdeck_fasc.num == d.draw,
        s.topdeck_lib.den == d.draw,
        s.topdeck_fasc.den == d.draw,
{
}

/// Composition-class lookup ignores card order: two claims with the same
/// fascist count map to the same ranked probability in any snapshot.
pub proof fn lemma_chance_order_invariant(s: Stats, d1: Draw, d2: Draw)
    requires
        crate::cards::spec_fasc_count(d1) == crate::cards::spec_fasc_count(d2),
    ensures
        spec_chance_seq(s.rank@, spec_class_of(d1)) == spec_chance_seq(s.rank@, spec_class_of(d2)),
{
    crate::cards::lemma_class_order_invariant(d1, d2);
}

} // verus!
