use card_counter::{Card, Deck, Draw};

#[test]
fn new_deck_is_full() {
    let d = Deck::new();
    assert_eq!(d.draw, 17);
    assert_eq!(d.discard, 0);
    assert_eq!(d.liberals_played, 0);
    assert_eq!(d.fascists_played, 0);
    assert_eq!(d.liberals_claimed, 0);
    assert_eq!(d.fascists_claimed, 0);
}

#[test]
fn claim_round_moves_cards() {
    let mut d = Deck::new();
    let claim = Draw::new(Card::Liberal, Card::Liberal, Card::Liberal);
    let shuffled = d.round(Some(claim), &Card::Liberal);
    assert!(!shuffled);
    assert_eq!(d.draw, 14);
    assert_eq!(d.discard, 2);
    assert_eq!(d.liberals_played, 1);
    // The all-liberal claim books three cards; the played liberal resolves one.
    assert_eq!(d.liberals_claimed, 2);
    assert_eq!(d.fascists_claimed, 0);
}

#[test]
fn unanimous_opposite_claim_is_not_resolved() {
    let mut d = Deck::new();
    // Claim three fascists, then play a liberal: no liberal was claimed,
    // so the liberal claim counter must stay untouched.
    let claim = Draw::new(Card::Fascist, Card::Fascist, Card::Fascist);
    d.round(Some(claim), &Card::Liberal);
    assert_eq!(d.liberals_claimed, 0);
    assert_eq!(d.fascists_claimed, 3);
    assert_eq!(d.liberals_played, 1);
}

#[test]
fn topdeck_draws_one_card() {
    let mut d = Deck::new();
    let shuffled = d.round(None, &Card::Fascist);
    assert!(!shuffled);
    assert_eq!(d.draw, 16);
    assert_eq!(d.discard, 0);
    assert_eq!(d.fascists_played, 1);
}

#[test]
fn five_claimed_rounds_trigger_reshuffle() {
    // Five all-fascist claims consume fifteen cards (five played, ten
    // discarded), driving the pile to two and forcing the reshuffle that
    // restores draw = 2 + 10 = 12 and resets the claim counters.
    let mut d = Deck::new();
    let claim = Draw::new(Card::Fascist, Card::Fascist, Card::Fascist);
    for i in 0..5 {
        let shuffled = d.round(Some(claim), &Card::Fascist);
        if i < 4 {
            assert!(!shuffled);
        } else {
            assert!(shuffled);
        }
    }
    assert_eq!(d.draw, 12);
    assert_eq!(d.discard, 0);
    assert_eq!(d.liberals_claimed, 0);
    assert_eq!(d.fascists_claimed, 0);
    assert_eq!(d.fascists_played, 5);
}

#[test]
fn left_counts_clamp_at_zero() {
    // A contradictory claim history can push played + claimed past the
    // faction totals; the remaining counts clamp at zero instead of
    // failing.
    let d = Deck {
        draw: 8,
        discard: 6,
        liberals_played: 2,
        fascists_played: 1,
        liberals_claimed: 5,
        fascists_claimed: 12,
    };
    assert_eq!(d.lib_left(), 0);
    assert_eq!(d.fasc_left(), 0);
    let fresh = Deck::new();
    assert_eq!(fresh.lib_left(), 6);
    assert_eq!(fresh.fasc_left(), 11);
}
