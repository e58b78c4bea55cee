use crate::custom_types::Slot;
use crate::environment::{Environment, EnvironmentView};
use crate::pipeline::{has_advanced, Choices};
use crate::strategy::Decision;
use vstd::prelude::*;

verus! {

/// Whether `after` can be `before` `slots` slots later: in each slot the
/// environment moves on by decisions and choices that it accepts.
pub open spec fn can_follow(before: EnvironmentView, after: EnvironmentView, slots: nat) -> bool
    decreases slots,
{
    if slots == 0 {
        after == before
    } else {
        exists|earlier: EnvironmentView, decisions: Seq<Decision>, choices: Seq<Choices>|
            can_follow(before, earlier, (slots - 1) as nat) && #[trigger] has_advanced(
                earlier,
                decisions,
                choices,
                after,
            )
    }
}

/// The simulator: an environment, and the number of slots to run it for.
pub struct Simulator {
    pub environment: Environment,
    pub duration: Slot,
}

impl Simulator {
    pub fn new(duration: Slot) -> (simulator: Self)
        ensures
            simulator.environment@ == EnvironmentView::fresh(),
            simulator.environment.wf(),
            simulator.duration == duration,
    {
        Self { environment: Environment::new(), duration }
    }

    /// Runs the environment for `duration` slots.
    pub fn run(&mut self)
        requires
            old(self).environment.wf(),
            old(self).environment@.blockchain.slot + old(self).duration <= usize::MAX,
        ensures
            can_follow(old(self).environment@, final(self).environment@, old(self).duration as nat),
            final(self).environment.wf(),
            final(self).duration == old(self).duration,
            final(self).environment@.blockchain.slot == old(self).environment@.blockchain.slot
                + old(self).duration,
            final(self).environment@.users.len() == old(self).environment@.users.len(),
            final(self).environment@.user_graph == old(self).environment@.user_graph,
            final(self).environment@.user_num_mem.len() == old(self).environment@.user_num_mem.len()
                + old(self).duration,
            final(self).environment@.mempool_tx_mem.len()
                == old(self).environment@.mempool_tx_mem.len() + old(self).duration,
            forall|i: int|
                0 <= i < crate::parameters::SHARD_NUM ==> (
                #[trigger] final(self).environment@.blockchain.shards[i]).blocks.len() == old(
                    self,
                ).environment@.blockchain.shards[i].blocks.len() + old(self).duration,
    {
        let ghost start = self.environment@;
        let mut slot: Slot = 0;
        while slot < self.duration
            invariant
                slot <= self.duration,
                self.duration == old(self).duration,
                can_follow(start, self.environment@, slot as nat),
                self.environment.wf(),
                start.blockchain.slot + self.duration <= usize::MAX,
                self.environment@.blockchain.slot == start.blockchain.slot + slot,
                self.environment@.users.len() == start.users.len(),
                self.environment@.user_graph == start.user_graph,
                self.environment@.user_num_mem.len() == start.user_num_mem.len() + slot,
                self.environment@.mempool_tx_mem.len() == start.mempool_tx_mem.len() + slot,
                forall|i: int|
                    0 <= i < crate::parameters::SHARD_NUM ==> (
                    #[trigger] self.environment@.blockchain.shards[i]).blocks.len()
                        == start.blockchain.shards[i].blocks.len() + slot,
            decreases self.duration - slot,
        {
            let ghost earlier = self.environment@;
            self.environment.process();
            proof {
                let (decisions, choices) = choose|decisions: Seq<Decision>,
                    choices: Seq<Choices>| #[trigger]
                    has_advanced(earlier, decisions, choices, self.environment@);
                assert(has_advanced(earlier, decisions, choices, self.environment@));
            }
            slot = slot + 1;
        }
    }
}

} // verus!
