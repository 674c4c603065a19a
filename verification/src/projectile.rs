use vstd::prelude::*;

verus! {

/// A unique id of an entity that outlives the entity's slot in the world.
#[derive(Copy, Clone, Debug, PartialEq, Eq, Hash, Structural)]
pub struct Uid(pub u64);

/// The group (party, pet and owner) an entity belongs to.
#[derive(Copy, Clone, Debug, PartialEq, Eq, Hash, Structural)]
pub struct Group(pub u32);

/// What a projectile does when it hits something. `K` is the strength of a
/// knockback, `X` the description of an explosion.
#[derive(Clone, Debug)]
pub enum Effect<K, X> {
    /// Change the health of the entity hit by this much.
    Damage(i32),
    /// Push the entity hit away.
    Knockback(K),
    /// Give the owner this much energy.
    RewardEnergy(u32),
    /// Explode where the projectile is.
    Explode(X),
    /// Remove the projectile.
    Vanish,
    Stick,
    /// Let the owner take control of the entity hit.
    Possess,
}

/// A projectile in flight.
pub struct Projectile<K, X> {
    /// Effects on hitting terrain.
    pub hit_solid: Vec<Effect<K, X>>,
    /// Effects on hitting an entity.
    pub hit_entity: Vec<Effect<K, X>>,
    /// Time until the projectile is removed, in nanoseconds.
    pub time_left_nanos: u128,
    /// Who fired it.
    pub owner: Option<Uid>,
    /// Whether it passes through the owner's group.
    pub ignore_group: bool,
}

/// An entity the projectile touches, with its group.
#[derive(Copy, Clone, Debug, PartialEq, Eq, Structural)]
pub struct Contact {
    pub uid: Uid,
    pub group: Option<Group>,
}

/// What the physics step found the projectile touching.
pub struct Collisions {
    pub touch_entities: Vec<Contact>,
    pub on_wall: bool,
    pub on_ground: bool,
    pub on_ceiling: bool,
}

/// What a projectile's step asks of the world.
#[derive(Clone, Debug)]
pub enum Outcome<K, X> {
    /// Change the health of `target` by `healthchange`, before its armour,
    /// on behalf of `owner`.
    Damage { target: Uid, owner: Uid, healthchange: i32 },
    /// Push `target` away with `strength`.
    Knockback { target: Uid, strength: K },
    /// Give `owner` `amount` energy.
    RewardEnergy { owner: Uid, amount: u32 },
    /// Explode at the projectile's position, on behalf of `owner`.
    Explode { explosion: X, owner: Option<Uid> },
    /// Remove the projectile.
    Destroy,
    /// Let `owner` take control of `target`.
    Possess { owner: Uid, target: Uid },
}

/// The result of one step of a projectile.
pub struct ProjectileStep<K, X> {
    /// What happens in the world, in order.
    pub outcomes: Vec<Outcome<K, X>>,
    /// Whether the projectile turns to face its direction of flight.
    pub steer: bool,
}

/// The system that handles projectile hits.
pub struct Sys;

// ------------------------------------------------------------------------
// What a step does
// ------------------------------------------------------------------------

/// A contact that the projectile hits: not a member of the owner's group when
/// groups are ignored, and not the owner.
pub open spec fn hits(owner: Option<Uid>, ignore_group: bool, owner_group: Option<Group>, c: Contact) -> bool {
    &&& !(ignore_group && owner_group is Some && c.group == owner_group)
    &&& owner != Some(c.uid)
}

/// The first of the first `n` contacts that the projectile hits.
pub open spec fn first_hit(
    owner: Option<Uid>,
    ignore_group: bool,
    owner_group: Option<Group>,
    cs: Seq<Contact>,
    n: int,
) -> Option<Uid>
    decreases n,
{
    if n <= 0 {
        None
    } else {
        match first_hit(owner, ignore_group, owner_group, cs, n - 1) {
            Some(t) => Some(t),
            None => if hits(owner, ignore_group, owner_group, cs[n - 1]) {
                Some(cs[n - 1].uid)
            } else {
                None
            },
        }
    }
}

/// What one effect does to the entity `target`.
pub open spec fn entity_effect<K, X>(e: Effect<K, X>, target: Uid, owner: Option<Uid>) -> Seq<
    Outcome<K, X>,
> {
    match e {
        Effect::Damage(h) => match owner {
            Some(o) => if target != o {
                seq![Outcome::Damage { target, owner: o, healthchange: h }]
            } else {
                Seq::empty()
            },
            None => Seq::empty(),
        },
        Effect::Knockback(k) => seq![Outcome::Knockback { target, strength: k }],
        Effect::RewardEnergy(a) => match owner {
            Some(o) => seq![Outcome::RewardEnergy { owner: o, amount: a }],
            None => Seq::empty(),
        },
        Effect::Explode(x) => seq![Outcome::Explode { explosion: x, owner }],
        Effect::Vanish => seq![Outcome::Destroy],
        Effect::Possess => match owner {
            Some(o) => if target != o {
                seq![Outcome::Possess { owner: o, target }]
            } else {
                Seq::empty()
            },
            None => Seq::empty(),
        },
        Effect::Stick => Seq::empty(),
    }
}

/// What the effects `es` do to the entity `target`, in order.
pub open spec fn entity_effects<K, X>(es: Seq<Effect<K, X>>, target: Uid, owner: Option<Uid>) -> Seq<
    Outcome<K, X>,
>
    decreases es.len(),
{
    if es.len() == 0 {
        Seq::empty()
    } else {
        entity_effects(es.drop_last(), target, owner) + entity_effect(es.last(), target, owner)
    }
}

/// What one effect does on hitting terrain: only explosions and vanishing act.
pub open spec fn solid_effect<K, X>(e: Effect<K, X>, owner: Option<Uid>) -> Seq<Outcome<K, X>> {
    match e {
        Effect::Explode(x) => seq![Outcome::Explode { explosion: x, owner }],
        Effect::Vanish => seq![Outcome::Destroy],
        _ => Seq::empty(),
    }
}

pub open spec fn solid_effects<K, X>(es: Seq<Effect<K, X>>, owner: Option<Uid>) -> Seq<Outcome<K, X>>
    decreases es.len(),
{
    if es.len() == 0 {
        Seq::empty()
    } else {
        solid_effects(es.drop_last(), owner) + solid_effect(es.last(), owner)
    }
}

pub open spec fn is_owner_effect<K, X>(e: Effect<K, X>) -> bool {
    e is Damage || e is Possess
}

/// The step cannot go wrong: an entity hit with damage or possession has an
/// owner to act on behalf of.
pub open spec fn step_ok<K, X>(
    owner: Option<Uid>,
    ignore_group: bool,
    owner_group: Option<Group>,
    cs: Seq<Contact>,
    hit_entity: Seq<Effect<K, X>>,
) -> bool {
    owner is None && first_hit(owner, ignore_group, owner_group, cs, cs.len() as int) is Some ==> forall|
        i: int,
    |
        0 <= i < hit_entity.len() ==> !is_owner_effect(#[trigger] hit_entity[i])
}

pub open spec fn touching_solid(c: &Collisions) -> bool {
    c.on_wall || c.on_ground || c.on_ceiling
}


// ------------------------------------------------------------------------
// The step
// ------------------------------------------------------------------------

/// Applies `effects`, in order, to the entity `target`.
fn apply_entity_effects<K, X>(
    effects: Vec<Effect<K, X>>,
    target: Uid,
    owner: Option<Uid>,
    outs: &mut Vec<Outcome<K, X>>,
)
    requires
        owner is None ==> forall|i: int|
            0 <= i < effects@.len() ==> !is_owner_effect(#[trigger] effects@[i]),
    ensures
        final(outs)@ == old(outs)@ + entity_effects(effects@, target, owner),
{
    let ghost orig = effects@;
    let ghost base = outs@;
    let ghost mut k: int = 0;
    let mut effects = effects;
    assert(orig.subrange(0, 0) =~= Seq::<Effect<K, X>>::empty());
    assert(base + entity_effects(orig.subrange(0, 0), target, owner) =~= base);
    while effects.len() > 0
        invariant
            0 <= k <= orig.len(),
            effects@ == orig.subrange(k, orig.len() as int),
            outs@ == base + entity_effects(orig.subrange(0, k), target, owner),
            owner is None ==> forall|i: int|
                0 <= i < orig.len() ==> !is_owner_effect(#[trigger] orig[i]),
        decreases effects.len(),
    {
        let e = effects.remove(0);
        proof {
            assert(e == orig[k]);
            assert(orig.subrange(0, k + 1).drop_last() =~= orig.subrange(0, k));
            assert(orig.subrange(0, k + 1).last() == orig[k]);
            assert(effects@ =~= orig.subrange(k + 1, orig.len() as int));
        }
        let ghost before = outs@;
        match e {
            Effect::Damage(h) => {
                match owner {
                    Some(o) => {
                        if target != o {
                            outs.push(Outcome::Damage { target, owner: o, healthchange: h });
                        }
                    },
                    None => {
                        proof {
                            assert(!is_owner_effect(orig[k]));
                        }
                    },
                }
            },
            Effect::Knockback(strength) => {
                outs.push(Outcome::Knockback { target, strength });
            },
            Effect::RewardEnergy(amount) => {
                match owner {
                    Some(o) => {
                        outs.push(Outcome::RewardEnergy { owner: o, amount });
                    },
                    None => {},
                }
            },
            Effect::Explode(explosion) => {
                outs.push(Outcome::Explode { explosion, owner });
            },
            Effect::Vanish => {
                outs.push(Outcome::Destroy);
            },
            Effect::Possess => {
                match owner {
                    Some(o) => {
                        if target != o {
                            outs.push(Outcome::Possess { owner: o, target });
                        }
                    },
                    None => {
                        proof {
                            assert(!is_owner_effect(orig[k]));
                        }
                    },
                }
            },
            Effect::Stick => {},
        }
        proof {
            assert(outs@ =~= before + entity_effect(orig[k], target, owner));
            assert(entity_effects(orig.subrange(0, k + 1), target, owner) == entity_effects(
                orig.subrange(0, k),
                target,
                owner,
            ) + entity_effect(orig[k], target, owner));
            assert(outs@ =~= base + entity_effects(orig.subrange(0, k + 1), target, owner));
            k = k + 1;
        }
    }
    proof {
        assert(orig.subrange(0, k) =~= orig);
    }
}

/// Applies `effects`, in order, on hitting terrain.
fn apply_solid_effects<K, X>(effects: Vec<Effect<K, X>>, owner: Option<Uid>, outs: &mut Vec<Outcome<K, X>>)
    ensures
        final(outs)@ == old(outs)@ + solid_effects(effects@, owner),
{
    let ghost orig = effects@;
    let ghost base = outs@;
    let ghost mut k: int = 0;
    let mut effects = effects;
    assert(orig.subrange(0, 0) =~= Seq::<Effect<K, X>>::empty());
    assert(base + solid_effects(orig.subrange(0, 0), owner) =~= base);
    while effects.len() > 0
        invariant
            0 <= k <= orig.len(),
            effects@ == orig.subrange(k, orig.len() as int),
            outs@ == base + solid_effects(orig.subrange(0, k), owner),
        decreases effects.len(),
    {
        let e = effects.remove(0);
        proof {
            assert(e == orig[k]);
            assert(orig.subrange(0, k + 1).drop_last() =~= orig.subrange(0, k));
            assert(orig.subrange(0, k + 1).last() == orig[k]);
            assert(effects@ =~= orig.subrange(k + 1, orig.len() as int));
        }
        let ghost before = outs@;
        match e {
            Effect::Explode(explosion) => {
                outs.push(Outcome::Explode { explosion, owner });
            },
            Effect::Vanish => {
                outs.push(Outcome::Destroy);
            },
            _ => {},
        }
        proof {
            assert(outs@ =~= before + solid_effect(orig[k], owner));
            assert(solid_effects(orig.subrange(0, k + 1), owner) == solid_effects(
                orig.subrange(0, k),
                owner,
            ) + solid_effect(orig[k], owner));
            assert(outs@ =~= base + solid_effects(orig.subrange(0, k + 1), owner));
            k = k + 1;
        }
    }
    proof {
        assert(orig.subrange(0, k) =~= orig);
    }
}


proof fn lemma_first_hit_stays(
    owner: Option<Uid>,
    ignore_group: bool,
    owner_group: Option<Group>,
    cs: Seq<Contact>,
    n: int,
    m: int,
)
    requires
        0 <= n <= m,
        first_hit(owner, ignore_group, owner_group, cs, n) is Some,
    ensures
        first_hit(owner, ignore_group, owner_group, cs, m) == first_hit(
            owner,
            ignore_group,
            owner_group,
            cs,
            n,
        ),
    decreases m - n,
{
    if m > n {
        lemma_first_hit_stays(owner, ignore_group, owner_group, cs, n, m - 1);
    }
}

/// The outcomes of one step of a projectile.
pub open spec fn step_outcomes<K, X>(
    hit_entity: Seq<Effect<K, X>>,
    hit_solid: Seq<Effect<K, X>>,
    time_left_nanos: u128,
    owner: Option<Uid>,
    ignore_group: bool,
    owner_group: Option<Group>,
    physics: &Collisions,
) -> Seq<Outcome<K, X>> {
    let cs = physics.touch_entities@;
    let on_entities = match first_hit(owner, ignore_group, owner_group, cs, cs.len() as int) {
        Some(t) => entity_effects(hit_entity, t, owner),
        None => Seq::empty(),
    };
    let on_solid = if touching_solid(physics) {
        solid_effects(hit_solid, owner)
    } else {
        Seq::empty()
    };
    let on_expiry = if time_left_nanos == 0 {
        seq![Outcome::Destroy]
    } else {
        Seq::empty()
    };
    on_entities + on_solid + on_expiry
}

impl Sys {
    /// One step of a projectile that the physics found touching `physics`,
    /// its owner in group `owner_group`, over `dt_nanos` nanoseconds.
    ///
    /// The first entity touched that is neither the owner nor, when groups are
    /// ignored, in the owner's group takes every entity effect, which are then
    /// used up; touching terrain triggers and uses up the terrain effects, and
    /// otherwise the projectile turns to its direction of flight; a projectile
    /// with no time left is removed; time left drops by `dt_nanos`, to no less
    /// than zero.
    pub fn run_projectile<K, X>(
        projectile: &mut Projectile<K, X>,
        physics: &Collisions,
        owner_group: Option<Group>,
        dt_nanos: u128,
    ) -> (step: ProjectileStep<K, X>)
        requires
            step_ok(
                old(projectile).owner,
                old(projectile).ignore_group,
                owner_group,
                physics.touch_entities@,
                old(projectile).hit_entity@,
            ),
        ensures
            step.outcomes@ == step_outcomes(
                old(projectile).hit_entity@,
                old(projectile).hit_solid@,
                old(projectile).time_left_nanos,
                old(projectile).owner,
                old(projectile).ignore_group,
                owner_group,
                physics,
            ),
            step.steer == !touching_solid(physics),
            step.steer == !(physics.on_wall || physics.on_ground || physics.on_ceiling),
            physics.on_wall || physics.on_ground || physics.on_ceiling
                ==> final(projectile).hit_solid@.len() == 0,
            !(physics.on_wall || physics.on_ground || physics.on_ceiling)
                ==> final(projectile).hit_solid@ == old(projectile).hit_solid@,
            final(projectile).hit_entity@ == if first_hit(
                old(projectile).owner,
                old(projectile).ignore_group,
                owner_group,
                physics.touch_entities@,
                physics.touch_entities@.len() as int,
            ) is Some {
                Seq::<Effect<K, X>>::empty()
            } else {
                old(projectile).hit_entity@
            },
            final(projectile).hit_solid@ == if touching_solid(physics) {
                Seq::<Effect<K, X>>::empty()
            } else {
                old(projectile).hit_solid@
            },
            final(projectile).time_left_nanos == if old(projectile).time_left_nanos >= dt_nanos {
                (old(projectile).time_left_nanos - dt_nanos) as u128
            } else {
                0
            },
            final(projectile).owner == old(projectile).owner,
            final(projectile).ignore_group == old(projectile).ignore_group,
    {
        let ghost owner = projectile.owner;
        let ghost ig = projectile.ignore_group;
        let ghost he = projectile.hit_entity@;
        let ghost hs = projectile.hit_solid@;
        let ghost cs = physics.touch_entities@;
        let ghost t0 = projectile.time_left_nanos;
        let mut outs: Vec<Outcome<K, X>> = Vec::new();
        let mut i: usize = 0;
        while i < physics.touch_entities.len()
            invariant
                cs == physics.touch_entities@,
                0 <= i <= cs.len(),
                projectile.owner == owner,
                projectile.ignore_group == ig,
                projectile.hit_solid@ == hs,
                projectile.time_left_nanos == t0,
                step_ok(owner, ig, owner_group, cs, he),
                match first_hit(owner, ig, owner_group, cs, i as int) {
                    Some(t) => projectile.hit_entity@ == Seq::<Effect<K, X>>::empty() && outs@
                        == entity_effects(he, t, owner),
                    None => projectile.hit_entity@ == he && outs@ == Seq::<Outcome<K, X>>::empty(),
                },
            decreases cs.len() - i,
        {
            let other = physics.touch_entities[i];
            let same_group = projectile.ignore_group && match owner_group {
                Some(g) => match other.group {
                    Some(og) => og == g,
                    None => false,
                },
                None => false,
            };
            let is_owner = match projectile.owner {
                Some(o) => o == other.uid,
                None => false,
            };
            proof {
                assert(same_group == (ig && owner_group is Some && other.group == owner_group));
                assert(is_owner == (owner == Some(other.uid)));
            }
            if !same_group && !is_owner {
                let mut effects: Vec<Effect<K, X>> = Vec::new();
                std::mem::swap(&mut effects, &mut projectile.hit_entity);
                proof {
                    if first_hit(owner, ig, owner_group, cs, i as int) is None {
                        assert(first_hit(owner, ig, owner_group, cs, i + 1) == Some(other.uid));
                        lemma_first_hit_stays(owner, ig, owner_group, cs, i + 1, cs.len() as int);
                    } else {
                        assert(effects@.len() == 0);
                    }
                }
                let ghost before = outs@;
                apply_entity_effects(effects, other.uid, projectile.owner, &mut outs);
                proof {
                    if first_hit(owner, ig, owner_group, cs, i as int) is Some {
                        assert(effects@ =~= Seq::<Effect<K, X>>::empty());
                        assert(entity_effects(effects@, other.uid, owner) =~= Seq::<
                            Outcome<K, X>,
                        >::empty());
                        assert(outs@ =~= before);
                    } else {
                        assert(outs@ =~= entity_effects(he, other.uid, owner));
                    }
                }
            }
            i = i + 1;
        }
        proof {
            assert(i == cs.len());
        }
        let touching = physics.on_wall || physics.on_ground || physics.on_ceiling;
        let mut steer = false;
        let ghost before_solid = outs@;
        if touching {
            let mut effects: Vec<Effect<K, X>> = Vec::new();
            std::mem::swap(&mut effects, &mut projectile.hit_solid);
            apply_solid_effects(effects, projectile.owner, &mut outs);
        } else {
            steer = true;
        }
        let ghost before_expiry = outs@;
        if projectile.time_left_nanos == 0 {
            outs.push(Outcome::Destroy);
        }
        projectile.time_left_nanos = if projectile.time_left_nanos >= dt_nanos {
            projectile.time_left_nanos - dt_nanos
        } else {
            0
        };
        proof {
            let on_entities = match first_hit(owner, ig, owner_group, cs, cs.len() as int) {
                Some(t) => entity_effects(he, t, owner),
                None => Seq::<Outcome<K, X>>::empty(),
            };
            assert(before_solid == on_entities);
            let on_solid = if touching_solid(physics) {
                solid_effects(hs, owner)
            } else {
                Seq::<Outcome<K, X>>::empty()
            };
            assert(before_expiry =~= on_entities + on_solid);
            let on_expiry = if t0 == 0 {
                seq![Outcome::<K, X>::Destroy]
            } else {
                Seq::<Outcome<K, X>>::empty()
            };
            assert(outs@ =~= on_entities + on_solid + on_expiry);
        }
        ProjectileStep { outcomes: outs, steer }
    }
}


/// Once a projectile's entity effects are spent, what a step does no longer
/// depends on which entities it touches: spent effects never act again.
pub proof fn lemma_spent_effects_inert<K, X>(
    hit_solid: Seq<Effect<K, X>>,
    time_left_nanos: u128,
    owner: Option<Uid>,
    ignore_group: bool,
    owner_group_1: Option<Group>,
    owner_group_2: Option<Group>,
    physics_1: &Collisions,
    physics_2: &Collisions,
)
    requires
        touching_solid(physics_1) == touching_solid(physics_2),
    ensures
        step_outcomes(
            Seq::empty(),
            hit_solid,
            time_left_nanos,
            owner,
            ignore_group,
            owner_group_1,
            physics_1,
        ) == step_outcomes(
            Seq::empty(),
            hit_solid,
            time_left_nanos,
            owner,
            ignore_group,
            owner_group_2,
            physics_2,
        ),
{
    let e = Seq::<Effect<K, X>>::empty();
    let cs1 = physics_1.touch_entities@;
    let cs2 = physics_2.touch_entities@;
    if let Some(t) = first_hit(owner, ignore_group, owner_group_1, cs1, cs1.len() as int) {
        assert(entity_effects(e, t, owner) =~= Seq::<Outcome<K, X>>::empty());
    }
    if let Some(t) = first_hit(owner, ignore_group, owner_group_2, cs2, cs2.len() as int) {
        assert(entity_effects(e, t, owner) =~= Seq::<Outcome<K, X>>::empty());
    }
}

/// The effects among `es` that act on an entity hit: all but `Stick`.
pub open spec fn acting_count<K, X>(es: Seq<Effect<K, X>>) -> nat
    decreases es.len(),
{
    if es.len() == 0 {
        0
    } else {
        acting_count(es.drop_last()) + if es.last() is Stick {
            0nat
        } else {
            1nat
        }
    }
}

/// Damage from an owned projectile reaches any entity other than its owner
/// and carries the health change as it is, whatever its sign: a negative
/// change harms, a positive one heals.
pub proof fn lemma_damage_reaches_target<K, X>(h: i32, target: Uid, o: Uid)
    requires
        target != o,
    ensures
        entity_effect(Effect::<K, X>::Damage(h), target, Some(o)) == seq![
            Outcome::<K, X>::Damage { target, owner: o, healthchange: h },
        ],
{
}

/// On an entity other than the owner of an owned projectile, every entity
/// effect but `Stick` acts: one outcome for each, none is dropped.
pub proof fn lemma_entity_effects_all_act<K, X>(es: Seq<Effect<K, X>>, target: Uid, o: Uid)
    requires
        target != o,
    ensures
        entity_effects(es, target, Some(o)).len() == acting_count(es),
    decreases es.len(),
{
    if es.len() > 0 {
        lemma_entity_effects_all_act(es.drop_last(), target, o);
    }
}

/// The entity a projectile hits first is never its owner.
pub proof fn lemma_first_hit_not_owner(
    owner: Option<Uid>,
    ignore_group: bool,
    owner_group: Option<Group>,
    cs: Seq<Contact>,
    n: int,
)
    ensures
        first_hit(owner, ignore_group, owner_group, cs, n) is Some ==> owner != first_hit(
            owner,
            ignore_group,
            owner_group,
            cs,
            n,
        ),
    decreases n,
{
    if n > 0 {
        lemma_first_hit_not_owner(owner, ignore_group, owner_group, cs, n - 1);
    }
}

/// A step of an owned projectile whose one entity effect is `Damage(h)`, that
/// hits an entity, touches no terrain and has time left, asks for exactly one
/// thing: the health of the entity hit changes by `h`, on the owner's behalf.
pub proof fn lemma_step_damages_hit_entity<K, X>(
    h: i32,
    hit_solid: Seq<Effect<K, X>>,
    time_left_nanos: u128,
    o: Uid,
    ignore_group: bool,
    owner_group: Option<Group>,
    physics: &Collisions,
)
    requires
        first_hit(
            Some(o),
            ignore_group,
            owner_group,
            physics.touch_entities@,
            physics.touch_entities@.len() as int,
        ) is Some,
        !(physics.on_wall || physics.on_ground || physics.on_ceiling),
        time_left_nanos != 0,
    ensures
        step_outcomes(
            seq![Effect::<K, X>::Damage(h)],
            hit_solid,
            time_left_nanos,
            Some(o),
            ignore_group,
            owner_group,
            physics,
        ) == seq![
            Outcome::<K, X>::Damage {
                target: first_hit(
                    Some(o),
                    ignore_group,
                    owner_group,
                    physics.touch_entities@,
                    physics.touch_entities@.len() as int,
                )->0,
                owner: o,
                healthchange: h,
            },
        ],
{
    let cs = physics.touch_entities@;
    lemma_first_hit_not_owner(Some(o), ignore_group, owner_group, cs, cs.len() as int);
    let t = first_hit(Some(o), ignore_group, owner_group, cs, cs.len() as int)->0;
    let es = seq![Effect::<K, X>::Damage(h)];
    assert(t != o);
    assert(es.drop_last() =~= Seq::<Effect<K, X>>::empty());
    assert(es.last() == Effect::<K, X>::Damage(h));
    assert(entity_effects(es.drop_last(), t, Some(o)) =~= Seq::<Outcome<K, X>>::empty());
    assert(entity_effects(es, t, Some(o)) =~= seq![
        Outcome::<K, X>::Damage { target: t, owner: o, healthchange: h },
    ]);
}

/// A projectile touching terrain, a wall, the ground or a ceiling, any one of
/// them, triggers its terrain effects; one touching none triggers none. With
/// no entity touched and time left, that is all a step does.
pub proof fn lemma_terrain_contact_triggers<K, X>(
    hit_entity: Seq<Effect<K, X>>,
    hit_solid: Seq<Effect<K, X>>,
    time_left_nanos: u128,
    owner: Option<Uid>,
    ignore_group: bool,
    owner_group: Option<Group>,
    physics: &Collisions,
)
    requires
        physics.touch_entities@.len() == 0,
        time_left_nanos != 0,
    ensures
        physics.on_wall || physics.on_ground || physics.on_ceiling ==> step_outcomes(
            hit_entity,
            hit_solid,
            time_left_nanos,
            owner,
            ignore_group,
            owner_group,
            physics,
        ) == solid_effects(hit_solid, owner),
        !(physics.on_wall || physics.on_ground || physics.on_ceiling) ==> step_outcomes(
            hit_entity,
            hit_solid,
            time_left_nanos,
            owner,
            ignore_group,
            owner_group,
            physics,
        ) == Seq::<Outcome<K, X>>::empty(),
{
    let out = step_outcomes(
        hit_entity,
        hit_solid,
        time_left_nanos,
        owner,
        ignore_group,
        owner_group,
        physics,
    );
    if touching_solid(physics) {
        assert(out =~= solid_effects(hit_solid, owner));
    } else {
        assert(out =~= Seq::<Outcome<K, X>>::empty());
    }
}

/// Of an owned projectile, each kind of entity effect acts on an entity
/// other than the owner: a knockback pushes it, an energy reward goes to the
/// owner, an explosion goes off on the owner's behalf, vanishing removes the
/// projectile, possession hands the entity to the owner, and sticking does
/// nothing by itself.
pub proof fn lemma_owned_effects_on_other<K, X>(k: K, amount: u32, x: X, target: Uid, o: Uid)
    requires
        target != o,
    ensures
        entity_effect(Effect::<K, X>::Knockback(k), target, Some(o)) == seq![
            Outcome::<K, X>::Knockback { target, strength: k },
        ],
        entity_effect(Effect::<K, X>::RewardEnergy(amount), target, Some(o)) == seq![
            Outcome::<K, X>::RewardEnergy { owner: o, amount },
        ],
        entity_effect(Effect::<K, X>::Explode(x), target, Some(o)) == seq![
            Outcome::<K, X>::Explode { explosion: x, owner: Some(o) },
        ],
        entity_effect(Effect::<K, X>::Vanish, target, Some(o)) == seq![Outcome::<K, X>::Destroy],
        entity_effect(Effect::<K, X>::Possess, target, Some(o)) == seq![
            Outcome::<K, X>::Possess { owner: o, target },
        ],
        entity_effect(Effect::<K, X>::Stick, target, Some(o)) == Seq::<Outcome<K, X>>::empty(),
{
}

/// The entity a projectile hits is the first contact, in the order touched,
/// that is neither the owner nor, when groups are ignored, in the owner's
/// group; when there is none, nothing is hit.
pub proof fn lemma_first_hit_is_first(
    owner: Option<Uid>,
    ignore_group: bool,
    owner_group: Option<Group>,
    cs: Seq<Contact>,
    n: int,
)
    requires
        0 <= n <= cs.len(),
    ensures
        first_hit(owner, ignore_group, owner_group, cs, n) is None ==> forall|j: int|
            0 <= j < n ==> owner == Some(#[trigger] cs[j].uid) || (ignore_group && owner_group is Some
                && cs[j].group == owner_group),
        first_hit(owner, ignore_group, owner_group, cs, n) is Some ==> exists|i: int|
            {
                &&& 0 <= i < n
                &&& #[trigger] cs[i].uid == first_hit(owner, ignore_group, owner_group, cs, n)->0
                &&& owner != Some(cs[i].uid)
                &&& !(ignore_group && owner_group is Some && cs[i].group == owner_group)
                &&& forall|j: int|
                    0 <= j < i ==> owner == Some(#[trigger] cs[j].uid) || (ignore_group
                        && owner_group is Some && cs[j].group == owner_group)
            },
    decreases n,
{
    if n > 0 {
        lemma_first_hit_is_first(owner, ignore_group, owner_group, cs, n - 1);
        if first_hit(owner, ignore_group, owner_group, cs, n - 1) is None {
            if first_hit(owner, ignore_group, owner_group, cs, n) is Some {
                let i = n - 1;
                assert(cs[i].uid == first_hit(owner, ignore_group, owner_group, cs, n)->0);
            }
        } else {
            let i = choose|i: int|
                {
                    &&& 0 <= i < n - 1
                    &&& #[trigger] cs[i].uid == first_hit(owner, ignore_group, owner_group, cs, n - 1)->0
                    &&& owner != Some(cs[i].uid)
                    &&& !(ignore_group && owner_group is Some && cs[i].group == owner_group)
                    &&& forall|j: int|
                        0 <= j < i ==> owner == Some(#[trigger] cs[j].uid) || (ignore_group
                            && owner_group is Some && cs[j].group == owner_group)
                };
            assert(cs[i].uid == first_hit(owner, ignore_group, owner_group, cs, n)->0);
        }
    }
}

} // verus!
