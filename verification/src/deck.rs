//! The deck state machine.
//!
//! Seventeen cards (6 liberal, 11 fascist) move between the draw pile, the
//! discard pile, and the board; claimed-but-unresolved cards are tracked
//! per faction.  `round` advances the state by one claimed draw or one
//! topdeck and reshuffles automatically when fewer than three cards remain.

use vstd::prelude::*;

use crate::cards::{Card, Draw, spec_fasc_count, spec_lib_count, claim_to_tuple};

verus! {

/// Total number of liberal cards in the game.
pub const LIBERAL_TOTAL: u32 = 6;

/// Total number of fascist cards in the game.
pub const FASCIST_TOTAL: u32 = 11;

/// Publicly inferable deck state.
#[derive(Debug, Clone, Copy, PartialEq, Eq, Structural)]
pub struct Deck {
    /// Cards remaining in the draw pile.
    pub draw: u32,
    /// Cards in the discard pile.
    pub discard: u32,
    /// Liberal cards actually placed on the board.
    pub liberals_played: u32,
    /// Fascist cards actually placed on the board.
    pub fascists_played: u32,
    /// Liberal cards implied by unresolved claims.
    pub liberals_claimed: u32,
    /// Fascist cards implied by unresolved claims.
    pub fascists_claimed: u32,
}

impl Deck {
    /// Card conservation and a bound on the claim counters: every deck
    /// reachable from `Deck::new` through `round` satisfies this.
    pub open spec fn wf(self) -> bool {
        &&& self.draw + self.discard + self.liberals_played + self.fascists_played == 17
        &&& self.liberals_claimed + self.fascists_claimed <= 3 * self.discard
    }

    /// A full, untouched draw pile.
    pub fn new() -> (d: Deck)
        ensures
            d == spec_new_deck(),
            d.wf(),
    {
        Deck {
            draw: 17,
            discard: 0,
            liberals_played: 0,
            fascists_played: 0,
            liberals_claimed: 0,
            fascists_claimed: 0,
        }
    }

    /// Advances the deck by one round and reports whether it reshuffled.
    ///
    /// With a claim the round consumes three cards (one played, two
    /// discarded) and books the claim's composition; without one it is a
    /// topdeck consuming a single card.  The played card resolves one
    /// claimed card of its faction unless the claim was the unanimous
    /// triple of the opposite faction.
    pub fn round(&mut self, drawp: Option<Draw>, card: &Card) -> (shuffled: bool)
        requires
            old(self).wf(),
            drawp.is_some() ==> old(self).draw >= 3,
            drawp.is_none() ==> old(self).draw >= 1,
        ensures
            *final(self) == spec_round(*old(self), drawp, *card),
            shuffled == spec_round_shuffles(*old(self), drawp, *card),
            final(self).wf(),
    {
        match drawp {
            Some(claim) => {
                self.draw = self.draw - 3;
                self.discard = self.discard + 2;
                let (f, l) = claim_to_tuple(claim);
                self.liberals_claimed = self.liberals_claimed + l;
                self.fascists_claimed = self.fascists_claimed + f;
            },
            None => {
                self.draw = self.draw - 1;
            },
        }
        match card {
            Card::Liberal => {
                self.liberals_played = self.liberals_played + 1;
                match drawp {
                    Some(claim) => {
                        let (f, _) = claim_to_tuple(claim);
                        if f != 3 {
                            self.liberals_claimed = self.liberals_claimed - 1;
                        }
                    },
                    None => {},
                }
            },
            Card::Fascist => {
                self.fascists_played = self.fascists_played + 1;
                match drawp {
                    Some(claim) => {
                        let (_, l) = claim_to_tuple(claim);
                        if l != 3 {
                            self.fascists_claimed = self.fascists_claimed - 1;
                        }
                    },
                    None => {},
                }
            },
        }
        if self.draw < 3 {
            self.draw = self.draw + self.discard;
            self.discard = 0;
            self.liberals_claimed = 0;
            self.fascists_claimed = 0;
            true
        } else {
            false
        }
    }

    /// Liberal cards still unaccounted for, clamped at zero so that
    /// contradictory claim histories stay representable.
    pub fn lib_left(&self) -> (r: u32)
        ensures
            r == spec_lib_left(*self),
    {
        if self.liberals_played >= LIBERAL_TOTAL {
            0
        } else if self.liberals_claimed >= LIBERAL_TOTAL - self.liberals_played {
            0
        } else {
            LIBERAL_TOTAL - self.liberals_played - self.liberals_claimed
        }
    }

    /// Fascist cards still unaccounted for, clamped at zero.
    pub fn fasc_left(&self) -> (r: u32)
        ensures
            r == spec_fasc_left(*self),
    {
        if self.fascists_played >= FASCIST_TOTAL {
            0
        } else if self.fascists_claimed >= FASCIST_TOTAL - self.fascists_played {
            0
        } else {
            FASCIST_TOTAL - self.fascists_played - self.fascists_claimed
        }
    }
}

/// The starting deck.
pub open spec fn spec_new_deck() -> Deck {
    Deck {
        draw: 17,
        discard: 0,
        liberals_played: 0,
        fascists_played: 0,
        liberals_claimed: 0,
        fascists_claimed: 0,
    }
}

/// Liberal cards not yet played or claimed, clamped at zero.
pub open spec fn spec_lib_left(d: Deck) -> nat {
    if d.liberals_played + d.liberals_claimed >= LIBERAL_TOTAL {
        0
    } else {
        (LIBERAL_TOTAL - d.liberals_played - d.liberals_claimed) as nat
    }
}

/// Fascist cards not yet played or claimed, clamped at zero.
pub open spec fn spec_fasc_left(d: Deck) -> nat {
    if d.fascists_played + d.fascists_claimed >= FASCIST_TOTAL {
        0
    } else {
        (FASCIST_TOTAL - d.fascists_played - d.fascists_claimed) as nat
    }
}

/// Booking a claimed three-card draw: three cards leave the pile, two go
/// to the discard, and the claim's composition is added to the claim
/// counters.
pub open spec fn spec_apply_claim(d: Deck, claim: Draw) -> Deck {
    Deck {
        draw: (d.draw - 3) as u32,
        discard: (d.discard + 2) as u32,
        liberals_claimed: (d.liberals_claimed + spec_lib_count(claim)) as u32,
        fascists_claimed: (d.fascists_claimed + spec_fasc_count(claim)) as u32,
        ..d
    }
}

/// Booking the played card, resolving one claimed card of its faction
/// unless the claim was the unanimous triple of the opposite faction.
pub open spec fn spec_apply_play(d: Deck, drawp: Option<Draw>, card: Card) -> Deck {
    match card {
        Card::Liberal => {
            let resolves = match drawp {
                Some(claim) => spec_fasc_count(claim) != 3,
                None => false,
            };
            Deck {
                liberals_played: (d.liberals_played + 1) as u32,
                liberals_claimed: if resolves {
                    (d.liberals_claimed - 1) as u32
                } else {
                    d.liberals_claimed
                },
                ..d
            }
        },
        Card::Fascist => {
            let resolves = match drawp {
                Some(claim) => spec_lib_count(claim) != 3,
                None => false,
            };
            Deck {
                fascists_played: (d.fascists_played + 1) as u32,
                fascists_claimed: if resolves {
                    (d.fascists_claimed - 1) as u32
                } else {
                    d.fascists_claimed
                },
                ..d
            }
        },
    }
}

/// The deck after the round's draws and plays, before any reshuffle.
pub open spec fn spec_pre_shuffle(d: Deck, drawp: Option<Draw>, card: Card) -> Deck {
    let d1 = match drawp {
        Some(claim) => spec_apply_claim(d, claim),
        None => Deck { draw: (d.draw - 1) as u32, ..d },
    };
    spec_apply_play(d1, drawp, card)
}

/// Whether this round leaves fewer than three cards and so reshuffles.
pub open spec fn spec_round_shuffles(d: Deck, drawp: Option<Draw>, card: Card) -> bool {
    spec_pre_shuffle(d, drawp, card).draw < 3
}

/// The deck after one full round, reshuffle included: the discard pile
/// merges back and both claim counters reset, because the claim chain
/// cannot survive a shuffle.
pub open spec fn spec_round(d: Deck, drawp: Option<Draw>, card: Card) -> Deck {
    let d2 = spec_pre_shuffle(d, drawp, card);
    if d2.draw < 3 {
        Deck {
            draw: (d2.draw + d2.discard) as u32,
            discard: 0,
            liberals_claimed: 0,
            fascists_claimed: 0,
            ..d2
        }
    } else {
        d2
    }
}

/// The clamped remaining counts are never negative, in any deck state.
pub proof fn lemma_left_clamped(d: Deck)
    ensures
        spec_lib_left(d) >= 0,
        spec_fasc_left(d) >= 0,
        spec_lib_left(d) <= LIBERAL_TOTAL,
        spec_fasc_left(d) <= FASCIST_TOTAL,
{
}

} // verus!
