//! Cards, three-card draws, and their faction compositions.
//!
//! A `Draw` keeps the order in which its three cards were named, but every
//! probability question depends only on its composition: how many cards of
//! each faction it contains.

use vstd::prelude::*;

verus! {

/// One policy card of the two factions.
#[derive(Debug, Clone, Copy, PartialEq, Eq, Structural)]
pub enum Card {
    Liberal,
    Fascist,
}

/// An ordered triple of cards, as claimed for one round's draw.
#[derive(Debug, Clone, Copy, PartialEq, Eq, Structural)]
pub struct Draw(pub Card, pub Card, pub Card);

/// The four faction compositions a three-card draw can have, by fascist
/// count: `Rrr` three, `Rrb` two, `Rbb` one, `Bbb` none.
#[derive(Debug, Clone, Copy, PartialEq, Eq, Structural)]
pub enum CompClass {
    Rrr,
    Rrb,
    Rbb,
    Bbb,
}

/// One for a fascist card, zero for a liberal one.
pub open spec fn spec_card_fasc(c: Card) -> nat {
    match c {
        Card::Fascist => 1,
        Card::Liberal => 0,
    }
}

/// How many fascist cards a draw contains.
pub open spec fn spec_fasc_count(d: Draw) -> nat {
    spec_card_fasc(d.0) + spec_card_fasc(d.1) + spec_card_fasc(d.2)
}

/// How many liberal cards a draw contains.
pub open spec fn spec_lib_count(d: Draw) -> nat {
    (3 - spec_fasc_count(d)) as nat
}

/// The composition class of a draw, determined by its fascist count alone.
pub open spec fn spec_class_of(d: Draw) -> CompClass {
    if spec_fasc_count(d) == 3 {
        CompClass::Rrr
    } else if spec_fasc_count(d) == 2 {
        CompClass::Rrb
    } else if spec_fasc_count(d) == 1 {
        CompClass::Rbb
    } else {
        CompClass::Bbb
    }
}

impl Draw {
    /// Builds a draw from its three cards in claimed order.
    pub fn new(c: Card, d: Card, e: Card) -> (r: Draw)
        ensures
            r == Draw(c, d, e),
    {
        Draw(c, d, e)
    }
}

/// The faction counts of a claimed draw, as (fascist, liberal).
pub fn claim_to_tuple(claim: Draw) -> (r: (u32, u32))
    ensures
        r.0 == spec_fasc_count(claim),
        r.1 == spec_lib_count(claim),
        r.0 + r.1 == 3,
{
    let f0: u32 = if matches!(claim.0, Card::Fascist) {
        1
    } else {
        0
    };
    let f1: u32 = if matches!(claim.1, Card::Fascist) {
        1
    } else {
        0
    };
    let f2: u32 = if matches!(claim.2, Card::Fascist) {
        1
    } else {
        0
    };
    let f = f0 + f1 + f2;
    (f, 3 - f)
}

/// The composition class of a claimed draw.
pub fn claim_class(claim: Draw) -> (c: CompClass)
    ensures
        c == spec_class_of(claim),
{
    let (f, _) = claim_to_tuple(claim);
    if f == 3 {
        CompClass::Rrr
    } else if f == 2 {
        CompClass::Rrb
    } else if f == 1 {
        CompClass::Rbb
    } else {
        CompClass::Bbb
    }
}

/// The composition class ignores the order of the cards within a draw:
/// any two draws with the same fascist count fall in the same class.
pub proof fn lemma_class_order_invariant(d1: Draw, d2: Draw)
    requires
        spec_fasc_count(d1) == spec_fasc_count(d2),
    ensures
        spec_class_of(d1) == spec_class_of(d2),
{
}

} // verus!
