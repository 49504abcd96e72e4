use vstd::prelude::*;
use std::collections::VecDeque;
use rand::seq::IteratorRandom;

pub mod chatter;
pub mod crop;
pub mod fruit;
pub mod streamer;
pub mod subscriber;

verus! {

/// How an entity of the game gets around, which also tells what it is: the
/// streamer walks, chatters fly, subscribers swim, and the environment (the
/// campfire) stays put.
#[derive(Debug, PartialEq, Eq, Clone, Copy, Structural)]
pub enum GameEntityType {
    Walk,
    Fly,
    Swim,
    Environment,
}

/// The ways of moving an entity can have.
#[derive(Debug, PartialEq, Eq, Clone, Copy, Structural)]
pub enum MovementType {
    Walk,
    Fly,
    Swim,
}

impl Default for MovementType {
    fn default() -> (movement: MovementType)
        ensures
            movement == MovementType::Fly,
    {
        MovementType::Fly
    }
}

/// Requests waiting to be acted upon, one entry per request.
pub struct TriggerQueue(pub VecDeque<()>);

impl TriggerQueue {
    /// The number of requests waiting.
    pub open spec fn pending(&self) -> nat {
        self.0@.len()
    }

    pub fn new() -> (queue: TriggerQueue)
        ensures
            queue.pending() == 0,
    {
        TriggerQueue(VecDeque::new())
    }

    /// Adds one request.
    pub fn push_trigger(&mut self)
        ensures
            final(self).pending() == old(self).pending() + 1,
    {
        self.0.push_back(());
    }

    /// Removes one request, if any waits.
    pub fn pop_trigger(&mut self)
        ensures
            final(self).pending() == if old(self).pending() > 0 {
                old(self).pending() - 1
            } else {
                0
            },
    {
        self.0.pop_front();
    }

    pub fn is_empty(&self) -> (empty: bool)
        ensures
            empty == (self.pending() == 0),
    {
        self.0.len() == 0
    }
}

/// Picks one of the positions `0..count` at random, with `rand`'s thread
/// generator (`IteratorRandom::choose` over the range). The source returns
/// nothing for an empty range and otherwise an element of it; which one is
/// left to chance and is not stated.
#[verifier::external_body]
pub(crate) fn choose_index(count: usize) -> (chosen: Option<usize>)
    ensures
        chosen is None <==> count == 0,
        chosen matches Some(i) ==> i < count,
{
    (0..count).choose(&mut rand::thread_rng())
}

/// Picks one of the trigger queues at random and, when the key asking for it
/// is pressed, adds a request to it. Returns the position picked, none when
/// there are no queues; the other queues are left as they are.
pub fn trigger_random_queue(queues: &mut Vec<TriggerQueue>, key_pressed: bool) -> (picked: Option<usize>)
    ensures
        final(queues)@.len() == old(queues)@.len(),
        picked is None <==> old(queues)@.len() == 0,
        picked matches Some(i) ==> i < old(queues)@.len(),
        forall|k: int|
            0 <= k < old(queues)@.len() ==> #[trigger] final(queues)@[k].pending() == if key_pressed
                && picked == Some(k as usize) {
                old(queues)@[k].pending() + 1
            } else {
                old(queues)@[k].pending()
            },
{
    let picked = choose_index(queues.len());
    match picked {
        None => None,
        Some(i) => {
            if key_pressed {
                let mut chosen = queues.remove(i);
                chosen.push_trigger();
                queues.insert(i, chosen);
                proof {
                    assert forall|k: int| 0 <= k < old(queues)@.len() && k != i implies #[trigger] queues@[k]
                        == old(queues)@[k] by {}
                }
            }
            Some(i)
        },
    }
}

} // verus!
