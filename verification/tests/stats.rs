use card_counter::{compute_stats, Card, Deck, Draw, Prob};

#[test]
fn stats_unavailable_below_three_cards() {
    let d = Deck {
        draw: 2,
        discard: 10,
        liberals_played: 2,
        fascists_played: 3,
        liberals_claimed: 0,
        fascists_claimed: 0,
    };
    assert!(compute_stats(&d).is_none());
}

#[test]
fn fresh_deck_distribution() {
    let s = compute_stats(&Deck::new()).unwrap();
    assert_eq!(s.lib_left, 6);
    assert_eq!(s.fasc_left, 11);
    // Hypergeometric numerators over C(3, 17) = 680.
    let rrr = s.chance(Draw::new(Card::Fascist, Card::Fascist, Card::Fascist));
    let rrb = s.chance(Draw::new(Card::Fascist, Card::Fascist, Card::Liberal));
    let rbb = s.chance(Draw::new(Card::Fascist, Card::Liberal, Card::Liberal));
    let bbb = s.chance(Draw::new(Card::Liberal, Card::Liberal, Card::Liberal));
    assert_eq!(rrr, Prob { num: 165, den: 680 });
    assert_eq!(rrb, Prob { num: 330, den: 680 });
    assert_eq!(rbb, Prob { num: 165, den: 680 });
    assert_eq!(bbb, Prob { num: 20, den: 680 });
    // The four composition probabilities sum to exactly one.
    assert_eq!(rrr.num + rrb.num + rbb.num + bbb.num, 680);
}

#[test]
fn fresh_deck_ranking_order() {
    // Stable descending order: ties keep the fixed composition order
    // (three fascists before one fascist, both at 165/680).
    let s = compute_stats(&Deck::new()).unwrap();
    assert_eq!(s.rank_str(0), "RRB");
    assert_eq!(s.rank_str(1), "RRR");
    assert_eq!(s.rank_str(2), "RBB");
    assert_eq!(s.rank_str(3), "BBB");
    assert_eq!(s.rank_f(0), Prob { num: 330, den: 680 });
    assert_eq!(s.rank_f(1), Prob { num: 165, den: 680 });
    assert_eq!(s.rank_f(2), Prob { num: 165, den: 680 });
    assert_eq!(s.rank_f(3), Prob { num: 20, den: 680 });
}

#[test]
fn chance_is_order_invariant() {
    let s = compute_stats(&Deck::new()).unwrap();
    let a = s.chance(Draw::new(Card::Fascist, Card::Liberal, Card::Fascist));
    let b = s.chance(Draw::new(Card::Fascist, Card::Fascist, Card::Liberal));
    let c = s.chance(Draw::new(Card::Liberal, Card::Fascist, Card::Fascist));
    assert_eq!(a, b);
    assert_eq!(b, c);
    assert_eq!(a, Prob { num: 330, den: 680 });
}

#[test]
fn topdeck_distribution_sums_to_one() {
    let s = compute_stats(&Deck::new()).unwrap();
    assert_eq!(s.chance_topdeck(Card::Liberal), Prob { num: 6, den: 17 });
    assert_eq!(s.chance_topdeck(Card::Fascist), Prob { num: 11, den: 17 });
    assert_eq!(
        s.chance_topdeck(Card::Liberal).num + s.chance_topdeck(Card::Fascist).num,
        17
    );
}

#[test]
fn exhausted_faction_has_zero_chance() {
    // With every liberal card accounted for, an all-liberal draw is
    // impossible and mixed draws lose their liberal factors.
    let d = Deck {
        draw: 9,
        discard: 2,
        liberals_played: 4,
        fascists_played: 2,
        liberals_claimed: 2,
        fascists_claimed: 1,
    };
    let s = compute_stats(&d).unwrap();
    assert_eq!(s.lib_left, 0);
    assert_eq!(s.fasc_left, 8);
    let bbb = s.chance(Draw::new(Card::Liberal, Card::Liberal, Card::Liberal));
    assert_eq!(bbb.num, 0);
    let rrr = s.chance(Draw::new(Card::Fascist, Card::Fascist, Card::Fascist));
    // C(3, 8) = 56 over C(3, 9) = 84.
    assert_eq!(rrr, Prob { num: 56, den: 84 });
}
