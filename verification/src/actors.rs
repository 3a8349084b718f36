//! The two actors of the model: the target, which stays where it is, and the
//! missile, which flies at it.

use crate::binary32::{finite, is_finite, is_nan, less, lt, magnitude, ZERO};
use crate::numerics::{
    displace_at_rest_stays, displaces, heads, same_place, sum_does_not_lose, sum_keeps_order,
    sum_of_zeros_is_zero, sums, Numerics, Point, Vector,
};
use crate::simulation::{
    course, is_history, is_run, lemma_history_holds, lemma_history_runs, Entity, EntityType,
    Simulatable, Simulation,
};
use vstd::prelude::*;

verus! {

/// An actor that never moves.
pub struct Target {
    position: Point,
}

impl Target {
    /// Where the target is.
    pub closed spec fn position(&self) -> Point {
        self.position
    }

    /// A target at `position`.
    pub fn new(position: Point) -> (target: Self)
        ensures
            target.position() == position,
    {
        Self { position }
    }
}

impl Simulatable for Target {
    open spec fn snapshot(&self) -> Entity {
        Entity { position: self.position(), direction: None, speed: None, kind: EntityType::Target }
    }

    /// A tick leaves a target as it is.
    open spec fn steps_to(&self, next: &Self) -> bool {
        next.position() == self.position()
    }

    fn happen(&mut self) -> (entity: Entity) {
        self.render()
    }

    fn render(&self) -> (entity: Entity) {
        Entity::new(self.position, None, None, EntityType::Target)
    }
}

/// A target never moves: whatever the number of ticks, it shows what it
/// showed at first.
pub proof fn lemma_target_stays(run: Seq<Target>, k: int)
    requires
        is_run(run),
        0 <= k < run.len(),
    ensures
        run[k].snapshot() == run[0].snapshot(),
    decreases k,
{
    if k > 0 {
        lemma_target_stays(run, k - 1);
        assert(run[k - 1].steps_to(&run[k]));
    }
}

/// Whether a missile may be launched with these values: every one of them
/// is finite, neither the acceleration nor the speed is negative, and the
/// speed is not above the maximum.
pub open spec fn launchable(
    position: Point,
    target: Point,
    speed: u32,
    max_speed: u32,
    acceleration: u32,
) -> bool {
    &&& is_finite(position.x) && is_finite(position.y)
    &&& is_finite(target.x) && is_finite(target.y)
    &&& is_finite(speed) && is_finite(max_speed) && is_finite(acceleration)
    &&& !less(acceleration, ZERO)
    &&& !less(speed, ZERO)
    &&& !less(max_speed, speed)
}

/// Decides [`launchable`].
pub fn can_launch(
    position: Point,
    target: Point,
    speed: u32,
    max_speed: u32,
    acceleration: u32,
) -> (ok: bool)
    ensures
        ok == launchable(position, target, speed, max_speed, acceleration),
{
    finite(position.x) && finite(position.y) && finite(target.x) && finite(target.y) && finite(
        speed,
    ) && finite(max_speed) && finite(acceleration) && !lt(acceleration, ZERO) && !lt(speed, ZERO)
        && !lt(max_speed, speed)
}

/// An actor that flies at a fixed point. At every tick it moves along its
/// direction by its speed, gains speed while it is below its maximum, and
/// turns to where the target is from its new position. It does not lead the
/// target and has no limit on how fast it turns.
pub struct Missile<N: Numerics> {
    direction: Vector,
    current_speed: u32,
    max_speed: u32,
    acceleration: u32,
    current_position: Point,
    target_position: Point,
    numerics: N,
}

impl<N: Numerics> Missile<N> {
    /// The direction along which the missile moves at the next tick.
    pub closed spec fn direction(&self) -> Vector {
        self.direction
    }

    /// The distance that the missile covers at the next tick.
    pub closed spec fn speed(&self) -> u32 {
        self.current_speed
    }

    /// The speed from which on the missile gains no more.
    pub closed spec fn max_speed(&self) -> u32 {
        self.max_speed
    }

    /// What the missile gains in speed at a tick.
    pub closed spec fn acceleration(&self) -> u32 {
        self.acceleration
    }

    /// Where the missile is.
    pub closed spec fn position(&self) -> Point {
        self.current_position
    }

    /// The point that the missile flies at.
    pub closed spec fn target(&self) -> Point {
        self.target_position
    }

    /// The arithmetic that the missile is moved with.
    pub closed spec fn numerics(&self) -> N {
        self.numerics
    }

    /// Whether the direction is one that the arithmetic gives from the
    /// position to the target.
    pub open spec fn aimed(&self) -> bool {
        heads(&self.numerics(), self.position(), self.target(), self.direction())
    }

    /// A missile at `current_position` that points at `target_position`.
    pub fn new(
        current_position: Point,
        target_position: Point,
        current_speed: u32,
        max_speed: u32,
        acceleration: u32,
        numerics: N,
    ) -> (missile: Self)
        requires
            launchable(current_position, target_position, current_speed, max_speed, acceleration),
        ensures
            missile.position() == current_position,
            missile.target() == target_position,
            missile.speed() == current_speed,
            missile.max_speed() == max_speed,
            missile.acceleration() == acceleration,
            missile.numerics() == numerics,
            missile.aimed(),
    {
        let unit = numerics.heading(current_position, target_position);
        Self {
            direction: unit,
            current_speed,
            max_speed,
            acceleration,
            current_position,
            target_position,
            numerics,
        }
    }

    /// Whether `speed` is what a tick may make of the speed of this missile:
    /// a sum of speed and acceleration while the speed is below the maximum,
    /// and the speed as it is from then on.
    pub open spec fn gains(&self, speed: u32) -> bool {
        if less(self.speed(), self.max_speed()) {
            sums(&self.numerics(), self.speed(), self.acceleration(), speed)
        } else {
            speed == self.speed()
        }
    }

    /// Gains speed, unless the speed is at the maximum or above it.
    fn accelerate(&mut self)
        ensures
            old(self).gains(final(self).speed()),
            final(self).direction() == old(self).direction(),
            final(self).max_speed() == old(self).max_speed(),
            final(self).acceleration() == old(self).acceleration(),
            final(self).position() == old(self).position(),
            final(self).target() == old(self).target(),
            final(self).numerics() == old(self).numerics(),
    {
        if !lt(self.current_speed, self.max_speed) {
            return ;
        }
        self.current_speed = self.numerics.sum(self.current_speed, self.acceleration);
    }

    /// Turns to where the target is from where the missile is.
    fn update_direction(&mut self)
        ensures
            final(self).aimed(),
            final(self).speed() == old(self).speed(),
            final(self).max_speed() == old(self).max_speed(),
            final(self).acceleration() == old(self).acceleration(),
            final(self).position() == old(self).position(),
            final(self).target() == old(self).target(),
            final(self).numerics() == old(self).numerics(),
    {
        self.direction = self.numerics.heading(self.current_position, self.target_position);
    }

    /// Puts the missile at `position`.
    fn update_position(&mut self, position: Point)
        ensures
            final(self).position() == position,
            final(self).direction() == old(self).direction(),
            final(self).speed() == old(self).speed(),
            final(self).max_speed() == old(self).max_speed(),
            final(self).acceleration() == old(self).acceleration(),
            final(self).target() == old(self).target(),
            final(self).numerics() == old(self).numerics(),
    {
        self.current_position = position;
    }
}

impl<N: Numerics> Simulatable for Missile<N> {
    open spec fn snapshot(&self) -> Entity {
        Entity {
            position: self.position(),
            direction: Some(self.direction()),
            speed: Some(self.speed()),
            kind: EntityType::Missile,
        }
    }

    /// One tick of flight. The missile is displaced along the direction and
    /// by the speed that it had before the tick; then it gains speed; then it
    /// is aimed from where it has come to. Its target, its maximum speed and
    /// its acceleration stay.
    open spec fn steps_to(&self, next: &Self) -> bool {
        &&& next.numerics() == self.numerics()
        &&& next.target() == self.target()
        &&& next.max_speed() == self.max_speed()
        &&& next.acceleration() == self.acceleration()
        &&& displaces(
            &self.numerics(),
            self.position(),
            self.direction(),
            self.speed(),
            next.position(),
        )
        &&& self.gains(next.speed())
        &&& next.aimed()
    }

    fn happen(&mut self) -> (entity: Entity) {
        let new_position = self.numerics.displace(
            self.current_position,
            self.direction,
            self.current_speed,
        );
        self.update_position(new_position);
        self.accelerate();
        self.update_direction();
        Entity::new(
            self.current_position,
            Some(self.direction),
            Some(self.current_speed),
            EntityType::Missile,
        )
    }

    fn render(&self) -> (entity: Entity) {
        Entity::new(
            self.current_position,
            Some(self.direction),
            Some(self.current_speed),
            EntityType::Missile,
        )
    }
}

/// Through any number of ticks a missile keeps its target, its maximum speed,
/// its acceleration and its arithmetic, and after every tick it is aimed at
/// the target from where it then is.
pub proof fn lemma_missile_keeps_course<N: Numerics>(run: Seq<Missile<N>>, k: int)
    requires
        is_run(run),
        0 <= k < run.len(),
    ensures
        run[k].target() == run[0].target(),
        run[k].max_speed() == run[0].max_speed(),
        run[k].acceleration() == run[0].acceleration(),
        run[k].numerics() == run[0].numerics(),
        k > 0 ==> run[k].aimed(),
        k > 0 ==> run[k - 1].gains(run[k].speed()),
    decreases k,
{
    if k > 0 {
        lemma_missile_keeps_course(run, k - 1);
        assert(run[k - 1].steps_to(&run[k]));
    }
}

/// Whether `speed` is a speed that a missile with this maximum and this
/// acceleration may gain: a sum of the acceleration and a speed that is below
/// the maximum.
pub open spec fn is_gain<N: Numerics>(
    numerics: &N,
    max_speed: u32,
    acceleration: u32,
    speed: u32,
) -> bool {
    exists|below: u32|
        less(below, max_speed) && #[trigger] sums(numerics, below, acceleration, speed)
}

/// Through any number of ticks the speed of a missile is the speed that it
/// was launched with, or one that it gained while it was below its maximum:
/// it never gains twice from the maximum on.
pub proof fn lemma_missile_speed_is_gained_from_below<N: Numerics>(run: Seq<Missile<N>>, k: int)
    requires
        is_run(run),
        0 <= k < run.len(),
    ensures
        run[k].speed() == run[0].speed() || is_gain(
            &run[0].numerics(),
            run[0].max_speed(),
            run[0].acceleration(),
            run[k].speed(),
        ),
    decreases k,
{
    if k > 0 {
        lemma_missile_speed_is_gained_from_below(run, k - 1);
        lemma_missile_keeps_course(run, k - 1);
        assert(run[k - 1].steps_to(&run[k]));
        if less(run[k - 1].speed(), run[k - 1].max_speed()) {
            let below = run[k - 1].speed();
            assert(sums(&run[0].numerics(), below, run[0].acceleration(), run[k].speed()));
        }
    }
}

/// The speed of a missile whose acceleration is not negative never falls
/// from one tick to the next, where the sum of the arithmetic does not lose.
pub proof fn lemma_missile_speed_never_falls<N: Numerics>(run: Seq<Missile<N>>, k: int)
    requires
        is_run(run),
        0 <= k < run.len() - 1,
        !less(run[0].acceleration(), ZERO),
        sum_does_not_lose(&run[0].numerics()),
    ensures
        !less(run[k + 1].speed(), run[k].speed()),
{
    lemma_missile_keeps_course(run, k);
    assert(run[k].steps_to(&run[k + 1]));
    if less(run[k].speed(), run[k].max_speed()) {
        assert(sums(&run[0].numerics(), run[k].speed(), run[0].acceleration(), run[k + 1].speed()));
    }
}

/// The speed of a missile that starts at a speed up to its maximum, with an
/// acceleration that is not negative, is never above `top`, the sum of the
/// maximum and one acceleration, where the sum of the arithmetic does not
/// lose and keeps the order.
pub proof fn lemma_missile_speed_is_bounded<N: Numerics>(run: Seq<Missile<N>>, k: int, top: u32)
    requires
        is_run(run),
        0 <= k < run.len(),
        !is_nan(run[0].speed()),
        !is_nan(run[0].max_speed()),
        !less(run[0].max_speed(), run[0].speed()),
        !less(run[0].acceleration(), ZERO),
        sum_does_not_lose(&run[0].numerics()),
        sum_keeps_order(&run[0].numerics()),
        sums(&run[0].numerics(), run[0].max_speed(), run[0].acceleration(), top),
    ensures
        !less(top, run[k].speed()),
{
    let numerics = run[0].numerics();
    let (max_speed, acceleration) = (run[0].max_speed(), run[0].acceleration());
    lemma_missile_speed_is_gained_from_below(run, k);
    if run[k].speed() != run[0].speed() {
        let below = choose|below: u32|
            less(below, max_speed) && #[trigger] sums(&numerics, below, acceleration, run[k].speed());
        assert(sums(&numerics, max_speed, acceleration, top));
    }
}

/// A missile without speed and without acceleration stays at its place and
/// without speed, whatever the number of ticks, as long as the arithmetic
/// gives it a finite direction there; it does where a body at rest stays and
/// a sum of zeros is zero.
pub proof fn lemma_missile_at_rest_stays<N: Numerics>(run: Seq<Missile<N>>, k: int)
    requires
        is_run(run),
        0 <= k < run.len(),
        run[0].aimed(),
        magnitude(run[0].speed()) == 0,
        magnitude(run[0].acceleration()) == 0,
        !is_nan(run[0].position().x),
        !is_nan(run[0].position().y),
        displace_at_rest_stays(&run[0].numerics()),
        sum_of_zeros_is_zero(&run[0].numerics()),
        forall|from: Point, unit: Vector|
            same_place(from, run[0].position()) && #[trigger] heads(
                &run[0].numerics(),
                from,
                run[0].target(),
                unit,
            ) ==> is_finite(unit.x) && is_finite(unit.y),
    ensures
        same_place(run[k].position(), run[0].position()),
        magnitude(run[k].speed()) == 0,
        run[k].aimed(),
    decreases k,
{
    if k > 0 {
        lemma_missile_at_rest_stays(run, k - 1);
        lemma_missile_keeps_course(run, k - 1);
        let (was, now) = (run[k - 1], run[k]);
        assert(was.steps_to(&now));
        assert(heads(&run[0].numerics(), was.position(), run[0].target(), was.direction()));
        assert(displaces(
            &run[0].numerics(),
            was.position(),
            was.direction(),
            was.speed(),
            now.position(),
        ));
        if less(was.speed(), was.max_speed()) {
            assert(sums(&run[0].numerics(), was.speed(), run[0].acceleration(), now.speed()));
        }
    }
}

/// Either of the two actors, for a list that holds both.
pub enum Actor<N: Numerics> {
    Target(Target),
    Missile(Missile<N>),
}

impl<N: Numerics> Simulatable for Actor<N> {
    open spec fn snapshot(&self) -> Entity {
        match self {
            Actor::Target(target) => target.snapshot(),
            Actor::Missile(missile) => missile.snapshot(),
        }
    }

    /// A tick takes a target to a target and a missile to a missile, each as
    /// its own kind of actor steps.
    open spec fn steps_to(&self, next: &Self) -> bool {
        match (self, next) {
            (Actor::Target(a), Actor::Target(b)) => a.steps_to(b),
            (Actor::Missile(a), Actor::Missile(b)) => a.steps_to(b),
            _ => false,
        }
    }

    fn happen(&mut self) -> (entity: Entity) {
        match self {
            Actor::Target(target) => target.happen(),
            Actor::Missile(missile) => missile.happen(),
        }
    }

    fn render(&self) -> (entity: Entity) {
        match self {
            Actor::Target(target) => target.render(),
            Actor::Missile(missile) => missile.render(),
        }
    }
}

/// An actor that is a target stays that target: whatever the number of
/// ticks, it shows what it showed at first.
pub proof fn lemma_actor_target_stays<N: Numerics>(run: Seq<Actor<N>>, k: int)
    requires
        is_run(run),
        0 <= k < run.len(),
        run[0] is Target,
    ensures
        run[k] is Target,
        run[k].snapshot() == run[0].snapshot(),
    decreases k,
{
    if k > 0 {
        lemma_actor_target_stays(run, k - 1);
        assert(run[k - 1].steps_to(&run[k]));
    }
}

/// In an engine that runs targets and missiles, the entry of a target shows
/// the same snapshot after any number of ticks.
pub proof fn lemma_history_target_stays<N: Numerics, M: Numerics>(
    history: Seq<Simulation<Actor<N>, M>>,
    i: int,
    k: int,
)
    requires
        is_history(history),
        0 <= k < history.len(),
        0 <= i < history[0].actors().len(),
        history[0].actors()[i] is Target,
    ensures
        history[k].ledger()[i].data == history[0].ledger()[i].data,
{
    lemma_history_runs(history, i);
    lemma_actor_target_stays(course(history, i), k);
    lemma_history_holds(history, k);
    lemma_history_holds(history, 0);
}

} // verus!
