//! The source of chance: the thread's generator of the `rand` crate. Nothing
//! in this file is proved; the contracts state what holds of every draw.

use crate::agent::AgentAction;
use rand::rngs::ThreadRng;
use rand::seq::SliceRandom;
use vstd::prelude::*;

verus! {

/// The handle to the thread's random number generator; its inside is of no
/// concern to the library.
#[verifier::external_type_specification]
#[verifier::external_body]
pub struct ExThreadRng(ThreadRng);

/// `rand::thread_rng`: a handle to the thread's generator. Nothing is claimed
/// of it.
pub assume_specification[ rand::thread_rng ]() -> ThreadRng
;

/// `SliceRandom::choose` on the actions as a slice: one of the actions, picked
/// at random, or nothing where there is no action. Which one comes is left
/// open; it is one of those in the list.
#[verifier::external_body]
pub(crate) fn choose_action(actions: &Vec<AgentAction>, rng: &mut ThreadRng) -> (picked: Option<
    AgentAction,
>)
    ensures
        picked is None <==> actions@.len() == 0,
        picked is Some ==> actions@.contains(picked.unwrap()),
{
    actions.as_slice().choose(rng).copied()
}

} // verus!
