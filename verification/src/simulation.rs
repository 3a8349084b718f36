//! Snapshots, the actor capability and the engine.

use crate::collision::{
    collide, collided, lemma_destroyed_stays, lemma_near_pair_is_destroyed,
    lemma_one_kind_is_spared, must_collide, resolves, surveys,
};
use crate::numerics::{Numerics, Point, Vector};
use vstd::prelude::*;

verus! {

/// What kind of body an actor is. It is set when the actor is made and never
/// changes.
#[derive(Clone, Copy, Debug, PartialEq, Eq, Structural)]
pub enum EntityType {
    Missile,
    Target,
}

/// Whether the engine has seen the actor collide.
#[derive(Clone, Copy, Debug, PartialEq, Eq, Structural)]
pub enum EntityState {
    Functional,
    Destroyed,
}

/// What an actor shows of itself at one tick. Only a missile has a direction
/// and a speed. The speed is a binary32 encoding.
#[derive(Clone, Copy, Debug, PartialEq, Eq, Structural)]
pub struct Entity {
    pub position: Point,
    pub direction: Option<Vector>,
    pub speed: Option<u32>,
    pub kind: EntityType,
}

impl Entity {
    /// A snapshot of these four values.
    pub fn new(
        position: Point,
        direction: Option<Vector>,
        speed: Option<u32>,
        kind: EntityType,
    ) -> (entity: Self)
        ensures
            entity == (Entity { position, direction, speed, kind }),
    {
        Self { position, kind, direction, speed }
    }
}

/// One entry of the engine's ledger: the latest snapshot of an actor and the
/// state that the engine keeps for it.
#[derive(Clone, Copy, Debug, PartialEq, Eq, Structural)]
pub struct SimulationEntity {
    pub data: Entity,
    pub state: EntityState,
}

impl SimulationEntity {
    /// A ledger entry of this snapshot and this state.
    pub fn new(data: Entity, state: EntityState) -> (entry: Self)
        ensures
            entry == (SimulationEntity { data, state }),
    {
        Self { data, state }
    }
}

/// What the engine asks of an actor: to move on by one tick, and to show
/// itself.
///
/// An implementation says with `snapshot` what `render` returns, and with
/// `steps_to` which states a tick may lead to; what the engine proves of its
/// ledger and of its actors it proves in these terms.
pub trait Simulatable {
    /// What the actor shows of itself in its present state.
    spec fn snapshot(&self) -> Entity;

    /// Whether one tick may take the actor from this state to `next`.
    spec fn steps_to(&self, next: &Self) -> bool;

    /// Moves the actor on by one tick and shows it as it is then. The actor
    /// is of the kind that it was.
    fn happen(&mut self) -> (entity: Entity)
        ensures
            old(self).steps_to(final(self)),
            entity == final(self).snapshot(),
            entity.kind == old(self).snapshot().kind,
    ;

    /// Shows the actor as it is, and leaves it so.
    fn render(&self) -> (entity: Entity)
        ensures
            entity == self.snapshot(),
    ;
}

/// Whether `run` is a course that an actor may take: each state follows from
/// the one before it by one tick.
pub open spec fn is_run<A: Simulatable>(run: Seq<A>) -> bool {
    forall|k: int| 0 <= k < run.len() - 1 ==> (#[trigger] run[k]).steps_to(&run[k + 1])
}

/// The ledger after the update pass: each entry shows its actor as it is
/// after the tick, and keeps the state it had.
pub open spec fn updated<A: Simulatable>(
    ledger: Seq<SimulationEntity>,
    actors: Seq<A>,
) -> Seq<SimulationEntity> {
    Seq::new(
        ledger.len(),
        |k: int| SimulationEntity { data: actors[k].snapshot(), state: ledger[k].state },
    )
}

/// The engine: a list of actors, a ledger with one entry for each of them in
/// the same order, and a count of the ticks that have passed.
///
/// A destroyed actor stays in the list. It is moved and measured at every
/// later tick like any other: the state in the ledger is a record of what
/// happened, and changes nothing in what happens next.
pub struct Simulation<A: Simulatable, N: Numerics> {
    timestep: usize,
    state: Vec<SimulationEntity>,
    entities: Vec<A>,
    numerics: N,
}

impl<A: Simulatable, N: Numerics> Simulation<A, N> {
    /// The number of ticks that have passed.
    pub closed spec fn ticks(&self) -> nat {
        self.timestep as nat
    }

    /// The ledger.
    pub closed spec fn ledger(&self) -> Seq<SimulationEntity> {
        self.state@
    }

    /// The actors, in the order in which they were handed over.
    pub closed spec fn actors(&self) -> Seq<A> {
        self.entities@
    }

    /// The arithmetic that distances are measured with.
    pub closed spec fn numerics(&self) -> N {
        self.numerics
    }

    /// The ledger has one entry for each actor, and each entry shows its
    /// actor as it is.
    pub open spec fn wf(&self) -> bool {
        &&& self.ledger().len() == self.actors().len()
        &&& forall|k: int|
            0 <= k < self.ledger().len() ==> (#[trigger] self.ledger()[k]).data
                == self.actors()[k].snapshot()
    }

    /// An engine at tick 0, in which every actor is functional.
    pub fn new(entities: Vec<A>, numerics: N) -> (simulation: Self)
        ensures
            simulation.wf(),
            simulation.ticks() == 0,
            simulation.actors() == entities@,
            simulation.numerics() == numerics,
            forall|k: int|
                0 <= k < entities@.len() ==> (#[trigger] simulation.ledger()[k]).state
                    == EntityState::Functional,
    {
        let mut state: Vec<SimulationEntity> = Vec::new();
        let mut i: usize = 0;
        while i < entities.len()
            invariant
                i <= entities.len(),
                state@.len() == i,
                forall|k: int|
                    0 <= k < i ==> #[trigger] state@[k] == (SimulationEntity {
                        data: entities@[k].snapshot(),
                        state: EntityState::Functional,
                    }),
            decreases entities.len() - i,
        {
            state.push(SimulationEntity::new(entities[i].render(), EntityState::Functional));
            i += 1;
        }
        Self { timestep: 0, state, entities, numerics }
    }

    /// The update pass: moves every actor on by one tick, in order, and
    /// enters what it then shows in the ledger.
    fn update(&mut self)
        requires
            old(self).wf(),
        ensures
            final(self).ticks() == old(self).ticks(),
            final(self).numerics() == old(self).numerics(),
            final(self).actors().len() == old(self).actors().len(),
            forall|k: int|
                0 <= k < old(self).actors().len() ==> (#[trigger] old(self).actors()[k]).steps_to(
                    &final(self).actors()[k],
                ),
            final(self).ledger() == updated(old(self).ledger(), final(self).actors()),
            forall|k: int|
                0 <= k < old(self).ledger().len() ==> (#[trigger] final(self).ledger()[k]).data.kind
                    == old(self).ledger()[k].data.kind,
    {
        let n = self.entities.len();
        let mut i: usize = 0;
        while i < n
            invariant
                i <= n,
                n == old(self).entities@.len(),
                self.entities@.len() == n,
                self.state@.len() == n,
                old(self).state@.len() == n,
                self.timestep == old(self).timestep,
                self.numerics == old(self).numerics,
                forall|k: int|
                    0 <= k < i ==> (#[trigger] old(self).entities@[k]).steps_to(&self.entities@[k]),
                forall|k: int|
                    0 <= k < i ==> #[trigger] self.state@[k] == (SimulationEntity {
                        data: self.entities@[k].snapshot(),
                        state: old(self).state@[k].state,
                    }),
                forall|k: int|
                    i <= k < n ==> #[trigger] self.entities@[k] == old(self).entities@[k],
                forall|k: int| i <= k < n ==> #[trigger] self.state@[k] == old(self).state@[k],
                forall|k: int|
                    0 <= k < n ==> (#[trigger] self.state@[k]).data.kind
                        == old(self).state@[k].data.kind,
                old(self).wf(),
            decreases n - i,
        {
            let happened = self.entities[i].happen();
            let kept = self.state[i].state;
            self.state.set(i, SimulationEntity::new(happened, kept));
            i += 1;
        }
        assert(self.state@ =~= updated(old(self).state@, self.entities@));
    }

    /// Whether one tick may take the engine from this state to `next`. Every
    /// actor has made one step, and the ledger shows it as it is then, of
    /// the kind that it was. After that every pair of entries of different
    /// kinds was measured, and both entries were destroyed where the distance
    /// was within reach. The count of ticks has grown by one.
    pub open spec fn ticks_to(&self, next: &Self) -> bool {
        &&& next.wf()
        &&& next.ticks() == self.ticks() + 1
        &&& next.numerics() == self.numerics()
        &&& next.actors().len() == self.actors().len()
        &&& forall|k: int|
            0 <= k < self.actors().len() ==> (#[trigger] self.actors()[k]).steps_to(
                &next.actors()[k],
            )
        &&& forall|k: int|
            0 <= k < self.ledger().len() ==> (#[trigger] next.ledger()[k]).data.kind
                == self.ledger()[k].data.kind
        &&& collided(&self.numerics(), updated(self.ledger(), next.actors()), next.ledger())
    }

    /// One tick: the update pass, then the collision pass on what the update
    /// pass has left, then the count. Without actors only the count changes.
    pub fn advance(&mut self)
        requires
            old(self).wf(),
            old(self).ticks() < usize::MAX,
        ensures
            final(self).wf(),
            final(self).ticks() == old(self).ticks() + 1,
            old(self).ticks_to(final(self)),
    {
        if self.entities.is_empty() {
            self.timestep += 1;
            proof {
                let nothing: Map<(int, int), u32> = Map::empty();
                assert(self.state@ =~= updated(old(self).state@, self.entities@));
                assert(surveys(&self.numerics, self.state@, nothing));
                assert(resolves(self.state@, self.state@, nothing));
            }
            return ;
        }
        self.update();
        collide(&mut self.state, &self.numerics);
        self.timestep += 1;
    }

    /// A copy of the ledger. What the engine does later does not reach it.
    pub fn render(&self) -> (ledger: Vec<SimulationEntity>)
        ensures
            ledger@ == self.ledger(),
    {
        let mut ledger: Vec<SimulationEntity> = Vec::new();
        let mut i: usize = 0;
        while i < self.state.len()
            invariant
                i <= self.state.len(),
                ledger@ == self.state@.subrange(0, i as int),
            decreases self.state.len() - i,
        {
            ledger.push(self.state[i]);
            i += 1;
        }
        ledger
    }

    /// The actors as they are now.
    pub fn entities(&self) -> (actors: &Vec<A>)
        ensures
            actors@ == self.actors(),
    {
        &self.entities
    }

    /// The number of ticks that have passed.
    pub fn timestep(&self) -> (ticks: usize)
        ensures
            ticks == self.ticks(),
    {
        self.timestep
    }
}

/// Whether `history` is a course that an engine may take: it starts well
/// formed, and each state follows from the one before it by one tick.
pub open spec fn is_history<A: Simulatable, N: Numerics>(history: Seq<Simulation<A, N>>) -> bool {
    &&& history.len() > 0 ==> history[0].wf()
    &&& forall|k: int|
        0 <= k < history.len() - 1 ==> (#[trigger] history[k]).ticks_to(&history[k + 1])
}

/// The states that actor `i` goes through in `history`.
pub open spec fn course<A: Simulatable, N: Numerics>(
    history: Seq<Simulation<A, N>>,
    i: int,
) -> Seq<A> {
    Seq::new(history.len(), |k: int| history[k].actors()[i])
}

/// Both entries of a pair of different kinds that cannot but measure within
/// reach where the update pass has left them are destroyed by the end of the
/// tick.
pub proof fn lemma_tick_destroys_near_pairs<A: Simulatable, N: Numerics>(
    before: Simulation<A, N>,
    after: Simulation<A, N>,
    i: int,
    j: int,
)
    requires
        before.ticks_to(&after),
        0 <= i < j < after.ledger().len(),
        must_collide(&after.numerics(), after.ledger()[i].data, after.ledger()[j].data),
    ensures
        after.ledger()[i].state == EntityState::Destroyed,
        after.ledger()[j].state == EntityState::Destroyed,
{
    let moved = updated(before.ledger(), after.actors());
    assert(after.ledger()[i].data == moved[i].data);
    assert(after.ledger()[j].data == moved[j].data);
    lemma_near_pair_is_destroyed(&before.numerics(), moved, after.ledger(), i, j);
}

/// A tick destroys no entry where all entries are of one kind, however close
/// they are.
pub proof fn lemma_tick_spares_one_kind<A: Simulatable, N: Numerics>(
    before: Simulation<A, N>,
    after: Simulation<A, N>,
    k: int,
)
    requires
        before.ticks_to(&after),
        0 <= k < after.ledger().len(),
        forall|i: int, j: int|
            0 <= i < j < after.ledger().len() ==> after.ledger()[i].data.kind
                == after.ledger()[j].data.kind,
    ensures
        after.ledger()[k].state == before.ledger()[k].state,
{
    let moved = updated(before.ledger(), after.actors());
    assert forall|i: int, j: int| 0 <= i < j < moved.len() implies moved[i].data.kind
        == moved[j].data.kind by {
        assert(after.ledger()[i].data == moved[i].data);
        assert(after.ledger()[j].data == moved[j].data);
    }
    lemma_one_kind_is_spared(&before.numerics(), moved, after.ledger());
    assert(moved[k].state == before.ledger()[k].state);
}

/// Through any number of ticks the count goes up by one at each, the lists
/// keep their length, every entry shows its actor and keeps its kind, and a
/// destroyed entry stays destroyed.
pub proof fn lemma_history_holds<A: Simulatable, N: Numerics>(
    history: Seq<Simulation<A, N>>,
    k: int,
)
    requires
        is_history(history),
        0 <= k < history.len(),
    ensures
        history[k].wf(),
        history[k].ticks() == history[0].ticks() + k,
        history[k].numerics() == history[0].numerics(),
        history[k].actors().len() == history[0].actors().len(),
        history[k].ledger().len() == history[0].ledger().len(),
        forall|i: int|
            0 <= i < history[0].ledger().len() ==> (#[trigger] history[k].ledger()[i]).data.kind
                == history[0].ledger()[i].data.kind,
        forall|i: int|
            0 <= i < history[0].ledger().len() && history[0].ledger()[i].state
                == EntityState::Destroyed ==> (#[trigger] history[k].ledger()[i]).state
                == EntityState::Destroyed,
    decreases k,
{
    if k > 0 {
        lemma_history_holds(history, k - 1);
        let before = history[k - 1];
        let after = history[k];
        assert(before.ticks_to(&after));
        let moved = updated(before.ledger(), after.actors());
        assert forall|i: int| 0 <= i < history[0].ledger().len() implies (#[trigger] after.ledger()[
            i
        ]).data.kind == history[0].ledger()[i].data.kind by {
            assert(after.ledger()[i].data.kind == before.ledger()[i].data.kind);
        }
        assert forall|i: int|
            0 <= i < history[0].ledger().len() && history[0].ledger()[i].state
                == EntityState::Destroyed implies (#[trigger] after.ledger()[i]).state
            == EntityState::Destroyed by {
            assert(moved[i].state == EntityState::Destroyed);
            lemma_destroyed_stays(&before.numerics(), moved, after.ledger(), i);
        }
    }
}

/// Through any number of ticks each actor takes a course of its own kind of
/// steps, one step at each tick.
pub proof fn lemma_history_runs<A: Simulatable, N: Numerics>(history: Seq<Simulation<A, N>>, i: int)
    requires
        is_history(history),
        history.len() > 0,
        0 <= i < history[0].actors().len(),
    ensures
        is_run(course(history, i)),
{
    let run = course(history, i);
    assert forall|k: int| 0 <= k < run.len() - 1 implies (#[trigger] run[k]).steps_to(
        &run[k + 1],
    ) by {
        lemma_history_holds(history, k);
        assert(history[k].ticks_to(&history[k + 1]));
        assert(history[k].actors()[i].steps_to(&history[k + 1].actors()[i]));
    }
}

} // verus!
