use card_counter::{do_claim_round, do_topdeck, Card, Draw, GameState, Prob};

#[test]
fn fresh_game_state() {
    let g = GameState::new();
    assert_eq!(g.current_round, 0);
    assert_eq!(g.deck.draw, 17);
}

#[test]
fn claim_round_end_to_end() {
    // Fresh game; claim three liberals, play a liberal.  The claim books
    // three liberal cards and the matching play resolves one, so two stay
    // claimed; the returned snapshot reflects the deck after the round.
    let mut g = GameState::new();
    let claim = Draw::new(Card::Liberal, Card::Liberal, Card::Liberal);
    let s = do_claim_round(&mut g, 1, claim, Card::Liberal);
    assert_eq!(g.deck.draw, 14);
    assert_eq!(g.deck.discard, 2);
    assert_eq!(g.deck.liberals_played, 1);
    assert_eq!(g.deck.liberals_claimed, 2);
    assert_eq!(g.current_round, 1);
    assert_eq!(s.lib_left, 3);
    assert_eq!(s.fasc_left, 11);
    let r = g.past_round(0);
    assert_eq!(r.pres, 1);
    assert_eq!(r.draw, claim);
    assert_eq!(r.res, Card::Liberal);
    assert!(!r.topdeck);
    assert!(!r.shuffled);
    // The recorded probability is the pre-round chance of the claim:
    // C(3, 6) = 20 over C(3, 17) = 680.
    assert_eq!(r.prob, Prob { num: 20, den: 680 });
    // No reshuffle, so the subround probability stays zero.
    assert_eq!(r.subround_prob, Prob { num: 0, den: 1 });
}

#[test]
fn topdeck_end_to_end() {
    // Fresh game; topdeck a fascist.  The recorded probability is the
    // pre-round topdeck chance of a fascist, 11/17.
    let mut g = GameState::new();
    let s = do_topdeck(&mut g, Card::Fascist);
    assert_eq!(g.deck.draw, 16);
    assert_eq!(g.deck.discard, 0);
    assert_eq!(g.deck.fascists_played, 1);
    assert_eq!(g.current_round, 1);
    let r = g.past_round(0);
    assert_eq!(r.prob, Prob { num: 11, den: 17 });
    assert!(r.topdeck);
    assert!(!r.shuffled);
    assert_eq!(r.pres, 0);
    assert_eq!(
        r.draw,
        Draw::new(Card::Liberal, Card::Liberal, Card::Liberal)
    );
    assert_eq!(r.subround_prob, Prob { num: 0, den: 1 });
    // The returned snapshot is the post-round one.
    assert_eq!(s.fasc_left, 10);
    assert_eq!(s.chance_topdeck(Card::Fascist), Prob { num: 10, den: 16 });
}

#[test]
fn subround_probability_backfilled_on_reshuffle() {
    // Five rounds, each claiming two fascists and one liberal and playing
    // a fascist; the fifth round exhausts the pile and reshuffles.  The
    // subround spans all five rounds: starting from 6 liberal and 11
    // fascist cards, the running product of per-round conditional claim
    // probabilities is
    //   (6*55)/680 * (5*36)/364 * (4*21)/165 * (3*10)/56 * (2*3)/10.
    let mut g = GameState::new();
    let claim = Draw::new(Card::Fascist, Card::Fascist, Card::Liberal);
    for _ in 0..4 {
        do_claim_round(&mut g, 2, claim, Card::Fascist);
        assert!(!g.past_round(g.current_round as usize - 1).shuffled);
    }
    do_claim_round(&mut g, 2, claim, Card::Fascist);
    let last = g.past_round(4);
    assert!(last.shuffled);
    assert_eq!(g.deck.draw, 12);
    assert_eq!(g.deck.discard, 0);
    assert_eq!(
        last.subround_prob,
        Prob { num: 898128000, den: 22870848000 }
    );
    // Earlier rounds keep the zero placeholder.
    assert_eq!(g.past_round(3).subround_prob, Prob { num: 0, den: 1 });
}

#[test]
fn impossible_claim_sequence_has_zero_subround_probability() {
    // Five all-fascist claims assert fifteen fascist cards where only
    // eleven exist: the joint probability of the span collapses to zero.
    let mut g = GameState::new();
    let claim = Draw::new(Card::Fascist, Card::Fascist, Card::Fascist);
    for _ in 0..5 {
        do_claim_round(&mut g, 3, claim, Card::Fascist);
    }
    let last = g.past_round(4);
    assert!(last.shuffled);
    assert_eq!(last.subround_prob, Prob { num: 0, den: 1 });
}

#[test]
fn subround_chance_of_quiet_history_is_one() {
    // With no recorded rounds the span is empty and the product is one.
    let g = GameState::new();
    let p = g.subround_chance();
    assert_eq!(p, Prob { num: 1, den: 1 });
}
