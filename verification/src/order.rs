//! The order in which the players move.

use vstd::prelude::*;
use rand::seq::SliceRandom;
use crate::game::is_turn_order;
use crate::scan::cleared;

verus! {

/// `rand::rngs::ThreadRng`, the handle that `rand::rng` gives out and
/// `shuffle` draws from. Nothing inside it is visible here.
#[verifier::external_type_specification]
#[verifier::external_body]
pub struct ExThreadRng(rand::rngs::ThreadRng);

/// `rand::rng`, the random number generator of the running thread. Nothing is
/// claimed of the generator it hands out. It panics if the operating system
/// gives the thread no randomness to seed the generator with.
pub assume_specification[ rand::rng ]() -> (rng: rand::rngs::ThreadRng)
;

/// `rand::seq::SliceRandom::shuffle` on the items of a vector. The claim is
/// that shuffling only rearranges: afterwards the vector holds what it held
/// before, each item as often as before. Which arrangement comes out is left
/// open.
#[verifier::external_body]
fn shuffle(order: &mut Vec<usize>, rng: &mut rand::rngs::ThreadRng)
    ensures
        final(order)@.to_multiset() == old(order)@.to_multiset(),
{
    order.as_mut_slice().shuffle(rng);
}

/// The players in the order of their numbers.
pub fn seating(players: usize) -> (order: Vec<usize>)
    ensures
        order@ == Seq::new(players as nat, |i: int| i as usize),
{
    let mut order: Vec<usize> = Vec::new();
    for i in 0..players
        invariant
            order@ == Seq::new(i as nat, |k: int| k as usize),
    {
        order.push(i);
    }
    order
}

/// Any rearrangement of the players in the order of their numbers is a turn
/// order.
pub proof fn lemma_rearranged_seating(order: Seq<usize>, players: nat)
    requires
        players <= usize::MAX,
        order.to_multiset() == Seq::new(players, |i: int| i as usize).to_multiset(),
    ensures
        order.len() == players,
        is_turn_order(order),
{
    broadcast use vstd::seq_lib::group_to_multiset_ensures;

    let seated = Seq::new(players, |i: int| i as usize);
    assert(order.len() == players) by {
        assert(order.to_multiset().len() == seated.to_multiset().len());
    }
    assert forall|i: int| 0 <= i < order.len() implies (#[trigger] order[i]) < order.len() by {
        assert(order.to_multiset().count(order[i]) > 0);
    }
    assert forall|p: usize| p < order.len() implies #[trigger] order.contains(p) by {
        assert(seated[p as int] == p);
        assert(seated.to_multiset().count(p) > 0);
    }
    seated.lemma_multiset_has_no_duplicates();
    order.lemma_multiset_has_no_duplicates_conv();
}

/// Draws a turn order for `players` players at random.
pub fn random_order(players: usize) -> (order: Vec<usize>)
    ensures
        order@.len() == players,
        is_turn_order(order@),
{
    let mut rng = rand::rng();
    let mut order = seating(players);
    shuffle(&mut order, &mut rng);
    proof {
        lemma_rearranged_seating(order@, players as nat);
    }
    order
}

/// Whether `order` names every player from 0 up to its length, each once.
pub fn is_valid_order(order: &Vec<usize>) -> (valid: bool)
    ensures
        valid == is_turn_order(order@),
{
    let players = order.len();
    let mut seen = cleared(players);
    for i in 0..players
        invariant
            players == order@.len(),
            seen@.len() == players,
            forall|k: int| 0 <= k < i ==> (#[trigger] order@[k]) < players,
            forall|k: int, j: int| 0 <= k < j < i ==> order@[k] != order@[j],
            forall|p: int|
                0 <= p < players ==> (#[trigger] seen@[p] <==> exists|k: int|
                    0 <= k < i && order@[k] == p),
    {
        let player = order[i];
        if player >= players {
            return false;
        }
        if seen[player] {
            let ghost k = choose|k: int| 0 <= k < i && order@[k] == player;
            assert(order@[k] == order@[i as int]);
            return false;
        }
        seen.set(player, true);
    }
    for p in 0..players
        invariant
            players == order@.len(),
            seen@.len() == players,
            forall|k: int| 0 <= k < players ==> (#[trigger] order@[k]) < players,
            forall|k: int, j: int| 0 <= k < j < players ==> order@[k] != order@[j],
            forall|q: int|
                0 <= q < players ==> (#[trigger] seen@[q] <==> exists|k: int|
                    0 <= k < players && order@[k] == q),
            forall|q: int| 0 <= q < p ==> seen@[q],
    {
        if !seen[p] {
            assert(!order@.contains(p));
            return false;
        }
    }
    assert forall|p: usize| p < order@.len() implies #[trigger] order@.contains(p) by {
        assert(seen@[p as int]);
    }
    true
}

} // verus!
