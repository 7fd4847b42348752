//! The table of memorized boards. It is a hash map of the `hashbrown` crate,
//! keyed by a board's number; nothing in this file is proved, every contract
//! here states what that crate's map does.

use crate::agent::AgentAction;
use hashbrown::HashMap;
use vstd::prelude::*;

verus! {

/// The table itself. Its inside is hidden from the verifier: all that is
/// known of it is what the functions below say of `stored_actions`.
#[verifier::external_body]
pub struct BoardMemory {
    table: HashMap<u32, Vec<AgentAction>>,
}

/// What the table holds: for each key the list of actions kept under it.
pub uninterp spec fn stored_actions(memory: &BoardMemory) -> Map<u32, Seq<AgentAction>>;

/// `HashMap::new`: a table that holds nothing.
#[verifier::external_body]
pub(crate) fn memory_new() -> (memory: BoardMemory)
    ensures
        stored_actions(&memory).dom() == Set::<u32>::empty(),
{
    BoardMemory { table: HashMap::new() }
}

/// `HashMap::contains_key`: whether something is kept under `key`.
#[verifier::external_body]
pub(crate) fn memory_contains_key(memory: &BoardMemory, key: u32) -> (found: bool)
    ensures
        found == stored_actions(memory).contains_key(key),
{
    memory.table.contains_key(&key)
}

/// `HashMap::get`: the list kept under `key`, if there is one.
#[verifier::external_body]
pub(crate) fn memory_get(memory: &BoardMemory, key: u32) -> (actions: Option<&Vec<AgentAction>>)
    ensures
        actions is Some <==> stored_actions(memory).contains_key(key),
        actions is Some ==> actions.unwrap()@ == stored_actions(memory)[key],
{
    memory.table.get(&key)
}

/// `HashMap::get_mut`: the list kept under `key`, if there is one, for the
/// caller to change in place. What the caller leaves in the list is what the
/// table then holds under `key`; nothing else in the table changes.
#[verifier::external_body]
pub(crate) fn memory_get_mut(memory: &mut BoardMemory, key: u32) -> (actions: Option<
    &mut Vec<AgentAction>,
>)
    ensures
        actions is Some <==> stored_actions(old(memory)).contains_key(key),
        actions is None ==> stored_actions(final(memory)) == stored_actions(old(memory)),
        actions is Some ==> actions.unwrap()@ == stored_actions(old(memory))[key],
        actions is Some ==> stored_actions(final(memory)) == stored_actions(old(memory)).insert(
            key,
            final(actions.unwrap())@,
        ),
{
    memory.table.get_mut(&key)
}

/// `HashMap::insert`: afterwards the table holds `actions` under `key` and is
/// otherwise as before. The list that was kept under `key` until then is
/// handed back, if there was one.
#[verifier::external_body]
pub(crate) fn memory_insert(memory: &mut BoardMemory, key: u32, actions: Vec<AgentAction>) -> (previous:
    Option<Vec<AgentAction>>)
    ensures
        stored_actions(final(memory)) == stored_actions(old(memory)).insert(key, actions@),
        previous is Some <==> stored_actions(old(memory)).contains_key(key),
        previous is Some ==> previous.unwrap()@ == stored_actions(old(memory))[key],
{
    memory.table.insert(key, actions)
}

/// `HashMap::len`: the number of keys under which something is kept.
#[verifier::external_body]
pub(crate) fn memory_len(memory: &BoardMemory) -> (count: usize)
    ensures
        count == stored_actions(memory).dom().len(),
{
    memory.table.len()
}

} // verus!
