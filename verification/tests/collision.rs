use missile_sim::collision::collide;
use missile_sim::numerics::{Numerics, Point, Vector};
use missile_sim::simulation::EntityState::{Destroyed, Functional};
use missile_sim::simulation::EntityType::{Missile, Target};
use missile_sim::simulation::{Entity, EntityState, EntityType, SimulationEntity};
use nalgebra::Point2;

/// Arithmetic that measures distances and does nothing else.
struct Ruler;

impl Numerics for Ruler {
    fn displace(&self, from: Point, _along: Vector, _speed: u32) -> Point {
        from
    }

    fn sum(&self, speed: u32, _gain: u32) -> u32 {
        speed
    }

    fn heading(&self, _from: Point, _to: Point) -> Vector {
        Vector { x: 0, y: 0 }
    }

    fn distance(&self, a: Point, b: Point) -> u32 {
        let a = Point2::new(f32::from_bits(a.x), f32::from_bits(a.y));
        let b = Point2::new(f32::from_bits(b.x), f32::from_bits(b.y));
        nalgebra::distance(&a, &b).to_bits()
    }
}

/// Arithmetic to which the way from `a` to `b` is short only where `a` lies
/// left of `b`.
struct OneWay;

impl Numerics for OneWay {
    fn displace(&self, from: Point, _along: Vector, _speed: u32) -> Point {
        from
    }

    fn sum(&self, speed: u32, _gain: u32) -> u32 {
        speed
    }

    fn heading(&self, _from: Point, _to: Point) -> Vector {
        Vector { x: 0, y: 0 }
    }

    fn distance(&self, a: Point, b: Point) -> u32 {
        if f32::from_bits(a.x) < f32::from_bits(b.x) {
            0.0f32.to_bits()
        } else {
            9.0f32.to_bits()
        }
    }
}

fn entry(kind: EntityType, x: f32, y: f32, state: EntityState) -> SimulationEntity {
    let position = Point { x: x.to_bits(), y: y.to_bits() };
    SimulationEntity::new(Entity::new(position, None, None, kind), state)
}

fn flags(ledger: &[SimulationEntity]) -> Vec<EntityState> {
    ledger.iter().map(|entry| entry.state).collect()
}

#[test]
fn collide_leaves_an_empty_ledger_empty() {
    let mut ledger: Vec<SimulationEntity> = Vec::new();
    collide(&mut ledger, &Ruler);
    assert!(ledger.is_empty());
}

#[test]
fn collide_destroys_both_of_a_near_pair() {
    let mut ledger = vec![
        entry(Missile, 1.0, 1.0, Functional),
        entry(Target, 1.25, 1.25, Functional),
    ];
    let before = ledger.clone();
    collide(&mut ledger, &Ruler);
    assert_eq!(flags(&ledger), vec![Destroyed, Destroyed]);
    assert_eq!(ledger[0].data, before[0].data);
    assert_eq!(ledger[1].data, before[1].data);
}

#[test]
fn collide_spares_a_far_pair() {
    let mut ledger = vec![
        entry(Missile, 1.0, 1.0, Functional),
        entry(Target, 1.0, 1.5, Functional),
    ];
    let before = ledger.clone();
    collide(&mut ledger, &Ruler);
    assert_eq!(ledger, before);
}

#[test]
fn collide_spares_a_pair_of_one_kind() {
    let mut targets =
        vec![entry(Target, 0.0, 0.0, Functional), entry(Target, 0.0, 0.0, Functional)];
    let mut missiles =
        vec![entry(Missile, 2.0, 2.0, Functional), entry(Missile, 2.0, 2.0, Functional)];
    collide(&mut targets, &Ruler);
    collide(&mut missiles, &Ruler);
    assert_eq!(flags(&targets), vec![Functional, Functional]);
    assert_eq!(flags(&missiles), vec![Functional, Functional]);
}

#[test]
fn collide_restores_nothing() {
    let mut ledger = vec![
        entry(Missile, 0.0, 0.0, Destroyed),
        entry(Target, 50.0, 50.0, Destroyed),
        entry(Target, 90.0, 90.0, Functional),
    ];
    collide(&mut ledger, &Ruler);
    assert_eq!(flags(&ledger), vec![Destroyed, Destroyed, Functional]);
}

#[test]
fn collide_lets_a_destroyed_entry_destroy_another() {
    let mut ledger = vec![
        entry(Missile, 0.0, 0.0, Destroyed),
        entry(Target, 0.1, 0.0, Functional),
    ];
    collide(&mut ledger, &Ruler);
    assert_eq!(flags(&ledger), vec![Destroyed, Destroyed]);
}

#[test]
fn collide_destroys_all_that_are_near_one_entry() {
    let mut ledger = vec![
        entry(Target, 0.0, 0.0, Functional),
        entry(Missile, 0.4, 0.0, Functional),
        entry(Missile, -0.4, 0.0, Functional),
        entry(Missile, 0.0, 0.6, Functional),
        entry(Target, 0.0, 1.0, Functional),
        entry(Target, 7.0, 7.0, Functional),
    ];
    collide(&mut ledger, &Ruler);
    assert_eq!(
        flags(&ledger),
        vec![Destroyed, Destroyed, Destroyed, Destroyed, Destroyed, Functional]
    );
}

#[test]
fn collide_measures_from_the_lower_index() {
    let mut forth = vec![entry(Missile, 0.0, 0.0, Functional), entry(Target, 1.0, 0.0, Functional)];
    let mut back = vec![entry(Target, 1.0, 0.0, Functional), entry(Missile, 0.0, 0.0, Functional)];
    collide(&mut forth, &OneWay);
    collide(&mut back, &OneWay);
    assert_eq!(flags(&forth), vec![Destroyed, Destroyed]);
    assert_eq!(flags(&back), vec![Functional, Functional]);
}

#[test]
fn collide_takes_a_distance_that_is_no_number_as_far() {
    let mut ledger = vec![
        entry(Missile, f32::NAN, 0.0, Functional),
        entry(Target, 0.0, 0.0, Functional),
        entry(Target, f32::INFINITY, 0.0, Functional),
    ];
    collide(&mut ledger, &Ruler);
    assert_eq!(flags(&ledger), vec![Functional, Functional, Functional]);
}
