//! Client-side prediction and reconciliation.
//!
//! The client runs its own commands ahead of server confirmation. Each
//! authoritative update replaces the predicted state by the server's and
//! replays every still-unconfirmed command on top, through the same
//! command-execution logic the server uses, so the same confirmed base and
//! the same ordered command list always yield the same predicted state.

use vstd::prelude::*;

use crate::component::{resolves, ComponentBookkeeper, ComponentStore, EntityComponent};
use crate::component::EntityHandle;
use crate::network::channel::{overflow_aware_compare, spec_compare, SequenceNr};
use crate::playercmd::{spec_run_command, ControllableComponent, PlayerCommand};

verus! {

/// The suffix of a command history that the server has not confirmed yet:
/// the leading entries whose sequence numbers are at or before the
/// acknowledged one are dropped.
pub open spec fn drop_acked(h: Seq<(SequenceNr, PlayerCommand)>, ack: SequenceNr) -> Seq<
    (SequenceNr, PlayerCommand),
>
    decreases h.len(),
{
    if h.len() > 0 && spec_compare(h[0].0, ack) != core::cmp::Ordering::Greater {
        drop_acked(h.skip(1), ack)
    } else {
        h
    }
}

/// The entity states after replaying a list of commands, in order, for the
/// controlled entity.
pub open spec fn replay(
    v: Seq<ComponentBookkeeper<EntityComponent>>,
    target: EntityHandle,
    h: Seq<(SequenceNr, PlayerCommand)>,
) -> Seq<ComponentBookkeeper<EntityComponent>>
    decreases h.len(),
{
    if h.len() == 0 {
        v
    } else {
        replay(spec_run_command(v, target, h[0].1), target, h.skip(1))
    }
}

/// Replaying one more command runs it on the replayed state.
proof fn lemma_replay_snoc(
    v: Seq<ComponentBookkeeper<EntityComponent>>,
    target: EntityHandle,
    h: Seq<(SequenceNr, PlayerCommand)>,
    e: (SequenceNr, PlayerCommand),
)
    ensures
        replay(v, target, h.push(e)) == spec_run_command(replay(v, target, h), target, e.1),
    decreases h.len(),
{
    if h.len() == 0 {
        assert(h.push(e).len() == 1);
        assert(h.push(e)[0] == e);
        assert(h.push(e).skip(1) =~= h);
        assert(replay(v, target, h.push(e)) == replay(
            spec_run_command(v, target, e.1),
            target,
            h.push(e).skip(1),
        ));
        assert(replay(spec_run_command(v, target, e.1), target, h) == spec_run_command(
            v,
            target,
            e.1,
        ));
        assert(replay(v, target, h) == v);
    } else {
        assert(h.push(e)[0] == h[0]);
        assert(h.push(e).skip(1) =~= h.skip(1).push(e));
        assert(replay(v, target, h.push(e)) == replay(
            spec_run_command(v, target, h[0].1),
            target,
            h.skip(1).push(e),
        ));
        lemma_replay_snoc(spec_run_command(v, target, h[0].1), target, h.skip(1), e);
        assert(replay(v, target, h) == replay(
            spec_run_command(v, target, h[0].1),
            target,
            h.skip(1),
        ));
    }
}

/// Replaying commands keeps the controlled entity resolved and the store's
/// size unchanged.
proof fn lemma_replay_resolves(
    v: Seq<ComponentBookkeeper<EntityComponent>>,
    target: EntityHandle,
    h: Seq<(SequenceNr, PlayerCommand)>,
)
    requires
        resolves(v, target),
    ensures
        resolves(replay(v, target, h), target),
        replay(v, target, h).len() == v.len(),
    decreases h.len(),
{
    if h.len() > 0 {
        lemma_replay_resolves(spec_run_command(v, target, h[0].1), target, h.skip(1));
    }
}

/// Whether a history entry's sequence number is covered by the latest
/// acknowledgment.
fn is_acked(seq: SequenceNr, latest_ack: SequenceNr) -> (r: bool)
    ensures
        r == (spec_compare(seq, latest_ack) != core::cmp::Ordering::Greater),
{
    match overflow_aware_compare(seq, latest_ack) {
        core::cmp::Ordering::Greater => false,
        _ => true,
    }
}

/// Every entry of the trimmed history is an entry of the original one.
proof fn lemma_drop_acked_elements(h: Seq<(SequenceNr, PlayerCommand)>, ack: SequenceNr)
    ensures
        forall|j: int|
            0 <= j < drop_acked(h, ack).len() ==> exists|i: int|
                0 <= i < h.len() && #[trigger] drop_acked(h, ack)[j] == h[i],
    decreases h.len(),
{
    if h.len() > 0 && spec_compare(h[0].0, ack) != core::cmp::Ordering::Greater {
        lemma_drop_acked_elements(h.skip(1), ack);
        assert forall|j: int| 0 <= j < drop_acked(h, ack).len() implies exists|i: int|
            0 <= i < h.len() && #[trigger] drop_acked(h, ack)[j] == h[i] by {
            let i = choose|i: int|
                0 <= i < h.skip(1).len() && #[trigger] drop_acked(h.skip(1), ack)[j] == h.skip(
                    1,
                )[i];
            assert(h.skip(1)[i] == h[i + 1]);
        }
    }
}

/// Client-side speculative state: the confirmed server state with all
/// unconfirmed commands replayed on top.
pub struct Prediction {
    controllable: ControllableComponent,
    history: Vec<(SequenceNr, PlayerCommand)>,
    predicted: Option<ComponentStore<EntityComponent>>,
}

impl Prediction {
    /// The controlled entity.
    pub closed spec fn spec_controllable(self) -> ControllableComponent {
        self.controllable
    }

    /// The issued-but-unconfirmed commands, oldest first, each with the
    /// sequence number of the packet that carried it.
    pub closed spec fn spec_history(self) -> Seq<(SequenceNr, PlayerCommand)> {
        self.history@
    }

    /// The predicted entity states, once a confirmed snapshot arrived.
    pub closed spec fn spec_predicted(self) -> Option<
        Seq<ComponentBookkeeper<EntityComponent>>,
    > {
        match self.predicted {
            Some(s) => Some(s@),
            None => None,
        }
    }

    /// Every retained command is one the simulation accepts, and the
    /// predicted state, if any, still resolves the controlled entity.
    pub open spec fn wf(self) -> bool {
        &&& forall|i: int|
            0 <= i < self.spec_history().len() ==> (#[trigger] self.spec_history()[i]).1.wf()
        &&& match self.spec_predicted() {
            Some(v) => v.len() <= 0x1_0000 && resolves(v, self.spec_controllable().entity),
            None => true,
        }
    }

    /// A prediction engine with no confirmed snapshot yet.
    pub fn new(controllable: ControllableComponent) -> (r: Prediction)
        ensures
            r.wf(),
            r.spec_controllable() == controllable,
            r.spec_history() == Seq::<(SequenceNr, PlayerCommand)>::empty(),
            r.spec_predicted() is None,
    {
        Prediction { controllable, history: Vec::new(), predicted: None }
    }

    /// Drop the leading history entries the server has acknowledged.
    fn remove_old_history(&mut self, latest_ack: SequenceNr)
        ensures
            final(self).controllable == old(self).controllable,
            final(self).predicted == old(self).predicted,
            final(self).history@ == drop_acked(old(self).history@, latest_ack),
    {
        let mut cut: usize = 0;
        proof {
            assert(self.history@.skip(0) =~= self.history@);
        }
        while cut < self.history.len() && is_acked(self.history[cut].0, latest_ack)
            invariant
                cut <= self.history@.len(),
                self.controllable == old(self).controllable,
                self.predicted == old(self).predicted,
                self.history@ == old(self).history@,
                drop_acked(self.history@.skip(cut as int), latest_ack) == drop_acked(
                    old(self).history@,
                    latest_ack,
                ),
            decreases self.history@.len() - cut,
        {
            proof {
                assert(self.history@.skip(cut as int).skip(1) =~= self.history@.skip(
                    cut + 1 as int,
                ));
                assert(self.history@.skip(cut as int)[0] == self.history@[cut as int]);
            }
            cut = cut + 1;
        }
        let tail = self.history.split_off(cut);
        self.history = tail;
        proof {
            if self.history@.len() > 0 {
                assert(self.history@[0] == old(self).history@[cut as int]);
            }
        }
    }

    /// Take a fresh authoritative state: drop the commands it confirms,
    /// then replay the remaining unconfirmed commands on top of it. Before
    /// the first authoritative state arrives, just adopt it as is.
    pub fn update(
        &mut self,
        acked_sequence: SequenceNr,
        new_entities: &ComponentStore<EntityComponent>,
    )
        requires
            old(self).wf(),
            new_entities.wf(),
            resolves(new_entities@, old(self).spec_controllable().entity),
        ensures
            final(self).wf(),
            final(self).spec_controllable() == old(self).spec_controllable(),
            old(self).spec_predicted() is Some ==> {
                let trimmed = drop_acked(old(self).spec_history(), acked_sequence);
                &&& final(self).spec_history() == trimmed
                &&& final(self).spec_predicted() == Some(
                    replay(new_entities@, old(self).spec_controllable().entity, trimmed),
                )
            },
            old(self).spec_predicted() is None ==> {
                &&& final(self).spec_history() == old(self).spec_history()
                &&& final(self).spec_predicted() == Some(new_entities@)
            },
    {
        if self.predicted.is_some() {
            let mut entities = new_entities.duplicate();
            self.remove_old_history(acked_sequence);
            proof {
                lemma_drop_acked_elements(old(self).history@, acked_sequence);
                assert forall|j: int| 0 <= j < self.history@.len() implies (
                #[trigger] self.history@[j]).1.wf() by {
                    assert(drop_acked(old(self).history@, acked_sequence)[j] == self.history@[j]);
                    let i = choose|i: int|
                        0 <= i < old(self).history@.len() && #[trigger] drop_acked(
                            old(self).history@,
                            acked_sequence,
                        )[j] == old(self).history@[i];
                    assert(old(self).spec_history()[i] == old(self).history@[i]);
                }
            }

            let mut controllable = self.controllable;
            let ghost target = controllable.entity;
            let ghost trimmed = self.history@;
            let mut i: usize = 0;
            while i < self.history.len()
                invariant
                    trimmed == self.history@,
                    controllable == old(self).controllable,
                    i <= trimmed.len(),
                    forall|j: int| 0 <= j < trimmed.len() ==> (#[trigger] trimmed[j]).1.wf(),
                    target == controllable.entity,
                    entities@ == replay(new_entities@, target, trimmed.take(i as int)),
                    resolves(entities@, target),
                decreases trimmed.len() - i,
            {
                let (_seq, cmd) = self.history[i];
                crate::playercmd::run_command(cmd, &mut controllable, &mut entities);
                proof {
                    assert(trimmed.take(i + 1 as int) =~= trimmed.take(i as int).push(
                        trimmed[i as int],
                    ));
                    lemma_replay_snoc(new_entities@, target, trimmed.take(i as int), trimmed[i as int]);
                }
                i = i + 1;
            }
            proof {
                assert(trimmed.take(trimmed.len() as int) =~= trimmed);
                lemma_replay_resolves(new_entities@, target, trimmed);
            }
            self.controllable = controllable;
            self.predicted = Some(entities);
            proof {
                assert forall|j: int| 0 <= j < self.spec_history().len() implies (
                #[trigger] self.spec_history()[j]).1.wf() by {
                    assert(self.spec_history()[j] == trimmed[j]);
                }
            }
        } else {
            self.predicted = Some(new_entities.duplicate());
            proof {
                assert(self.spec_history() == old(self).spec_history());
                assert forall|j: int| 0 <= j < self.spec_history().len() implies (
                #[trigger] self.spec_history()[j]).1.wf() by {
                    assert(old(self).spec_history()[j] == self.spec_history()[j]);
                }
            }
        }
    }

    /// Run a fresh command on the predicted state and remember it, under
    /// the sequence number of the packet that carries it to the server.
    /// Fails, recording nothing, while no confirmed base state has arrived
    /// yet.
    pub fn predict(&mut self, cmd: PlayerCommand, sequence: SequenceNr) -> (r: bool)
        requires
            old(self).wf(),
            cmd.wf(),
        ensures
            final(self).wf(),
            final(self).spec_controllable() == old(self).spec_controllable(),
            r == (old(self).spec_predicted() is Some),
            match old(self).spec_predicted() {
                Some(v) => final(self).spec_history() == old(self).spec_history().push(
                    (sequence, cmd),
                ) && final(self).spec_predicted() == Some(
                    spec_run_command(v, old(self).spec_controllable().entity, cmd),
                ),
                None => *final(self) == *old(self),
            },
    {
        let mut controllable = self.controllable;

        match self.predicted.take() {
            Some(mut ents) => {
                crate::playercmd::run_command(cmd, &mut controllable, &mut ents);
                self.predicted = Some(ents);
                self.controllable = controllable;
                self.history.push((sequence, cmd));
                proof {
                    assert forall|j: int| 0 <= j < self.spec_history().len() implies (
                    #[trigger] self.spec_history()[j]).1.wf() by {
                        if j < old(self).history@.len() {
                            assert(old(self).spec_history()[j] == old(self).history@[j]);
                        }
                    }
                }
                true
            },
            None => {
                self.predicted = None;
                false
            },
        }
    }

    /// The current predicted entity states, if a confirmed snapshot has
    /// arrived yet.
    pub fn get_entities(&self) -> (r: Option<&ComponentStore<EntityComponent>>)
        ensures
            match r {
                Some(s) => self.spec_predicted() == Some(s@),
                None => self.spec_predicted() is None,
            },
    {
        self.predicted.as_ref()
    }
}

} // verus!
