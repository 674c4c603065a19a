use veloren::projectile::{
    Collisions, Contact, Effect, Group, Outcome, Projectile, Sys, Uid,
};

fn arrow(effects: Vec<Effect<f32, u32>>, owner: Option<Uid>) -> Projectile<f32, u32> {
    Projectile {
        hit_solid: vec![Effect::Explode(7), Effect::Vanish, Effect::Stick],
        hit_entity: effects,
        time_left_nanos: 1_000,
        owner,
        ignore_group: true,
    }
}

fn touching(contacts: Vec<Contact>) -> Collisions {
    Collisions {
        touch_entities: contacts,
        on_wall: false,
        on_ground: false,
        on_ceiling: false,
    }
}

#[test]
fn hit_entity_takes_every_effect_once() {
    let owner = Uid(1);
    let mut p = arrow(
        vec![
            Effect::Damage(-10),
            Effect::Knockback(2.5),
            Effect::RewardEnergy(50),
            Effect::Explode(3),
            Effect::Possess,
            Effect::Vanish,
        ],
        Some(owner),
    );
    let physics = touching(vec![
        Contact { uid: owner, group: None },
        Contact { uid: Uid(2), group: None },
        Contact { uid: Uid(3), group: None },
    ]);
    let step = Sys::run_projectile(&mut p, &physics, None, 100);
    let o = &step.outcomes;
    assert_eq!(o.len(), 6);
    assert!(matches!(o[0], Outcome::Damage { target: Uid(2), owner: Uid(1), healthchange: -10 }));
    assert!(matches!(o[1], Outcome::Knockback { target: Uid(2), strength } if strength == 2.5));
    assert!(matches!(o[2], Outcome::RewardEnergy { owner: Uid(1), amount: 50 }));
    assert!(matches!(o[3], Outcome::Explode { explosion: 3, owner: Some(Uid(1)) }));
    assert!(matches!(o[4], Outcome::Possess { owner: Uid(1), target: Uid(2) }));
    assert!(matches!(o[5], Outcome::Destroy));
    assert!(p.hit_entity.is_empty());
    assert!(step.steer);
    assert_eq!(p.time_left_nanos, 900);
    // A second step has nothing left to do to entities.
    let step = Sys::run_projectile(&mut p, &physics, None, 100);
    assert!(step.outcomes.is_empty());
}

#[test]
fn owner_group_is_passed_through() {
    let mut p = arrow(vec![Effect::Damage(-5)], Some(Uid(1)));
    let physics = touching(vec![Contact {
        uid: Uid(4),
        group: Some(Group(9)),
    }]);
    let step = Sys::run_projectile(&mut p, &physics, Some(Group(9)), 0);
    assert!(step.outcomes.is_empty());
    assert_eq!(p.hit_entity.len(), 1);
    // Without ignoring groups, the same contact is hit.
    p.ignore_group = false;
    let step = Sys::run_projectile(&mut p, &physics, Some(Group(9)), 0);
    assert_eq!(step.outcomes.len(), 1);
}

#[test]
fn terrain_triggers_solid_effects() {
    let mut p = arrow(vec![Effect::Damage(-5)], Some(Uid(1)));
    let mut physics = touching(vec![]);
    physics.on_ground = true;
    let step = Sys::run_projectile(&mut p, &physics, None, 10);
    assert!(!step.steer);
    assert_eq!(step.outcomes.len(), 2);
    assert!(matches!(step.outcomes[0], Outcome::Explode { explosion: 7, owner: Some(Uid(1)) }));
    assert!(matches!(step.outcomes[1], Outcome::Destroy));
    assert!(p.hit_solid.is_empty());
    assert_eq!(p.hit_entity.len(), 1);
}

#[test]
fn expired_projectile_is_destroyed_and_time_stays_at_zero() {
    let mut p = arrow(vec![], None);
    p.time_left_nanos = 30;
    let physics = touching(vec![]);
    let step = Sys::run_projectile(&mut p, &physics, None, 50);
    assert!(step.outcomes.is_empty());
    assert_eq!(p.time_left_nanos, 0);
    let step = Sys::run_projectile(&mut p, &physics, None, 50);
    assert_eq!(step.outcomes.len(), 1);
    assert!(matches!(step.outcomes[0], Outcome::Destroy));
    assert_eq!(p.time_left_nanos, 0);
}

#[test]
fn healing_self_does_nothing() {
    let mut p = arrow(vec![Effect::Damage(20), Effect::Possess], Some(Uid(1)));
    p.ignore_group = false;
    // The owner is never hit, whatever else it touches.
    let physics = touching(vec![Contact { uid: Uid(1), group: None }]);
    let step = Sys::run_projectile(&mut p, &physics, None, 0);
    assert!(step.outcomes.is_empty());
    assert_eq!(p.hit_entity.len(), 2);
}
