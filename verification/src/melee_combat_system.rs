//! The melee phase of combat: intents to attack become pending damage.

use vstd::prelude::*;
use crate::components::{melee_damage, melee_damage_spec, Entity, SufferDamage, WantsToMelee};
use crate::map::GameMap;
use crate::world::{Slot, World};

verus! {

/// Whether entity `a` lands a hit on entity `t`: it is alive, wants to strike
/// `t` and has combat stats, and `t` is alive and has combat stats. An intent
/// against an entity that is gone lands nothing.
pub open spec fn strikes(slots: Seq<Slot>, a: int, t: int) -> bool {
    &&& 0 <= a < slots.len()
    &&& 0 <= t < slots.len()
    &&& slots[a].alive
    &&& slots[a].wants_to_melee is Some
    &&& slots[a].wants_to_melee->0.target.id == t
    &&& slots[a].combat_stats is Some
    &&& slots[t].alive
    &&& slots[t].combat_stats is Some
}

/// The damage of the hit of `a` on `t`.
pub open spec fn hit_damage(slots: Seq<Slot>, a: int, t: int) -> u32 {
    melee_damage_spec(
        slots[a].combat_stats->0.power as int,
        slots[t].combat_stats->0.defense as int,
    ) as u32
}

/// The damage that the first `upto` entities deal to `t`, one amount per hit,
/// in the order of the attackers.
pub open spec fn hits_on(slots: Seq<Slot>, t: int, upto: int) -> Seq<u32>
    decreases upto,
{
    if upto <= 0 {
        Seq::empty()
    } else {
        let earlier = hits_on(slots, t, upto - 1);
        if strikes(slots, upto - 1, t) {
            earlier.push(hit_damage(slots, upto - 1, t))
        } else {
            earlier
        }
    }
}

/// The damage that waits to be taken from the entity's health.
pub open spec fn pending(slot: Slot) -> Seq<u32> {
    match slot.suffer_damage {
        Some(d) => d.amounts@,
        None => Seq::empty(),
    }
}

/// Everything but the intent to attack and the pending damage is the same in
/// `a` and `b`.
pub open spec fn same_but_combat(a: Slot, b: Slot) -> bool {
    &&& a.alive == b.alive
    &&& a.position == b.position
    &&& a.renderable == b.renderable
    &&& a.viewshed == b.viewshed
    &&& a.combat_stats == b.combat_stats
    &&& a.player == b.player
    &&& a.monster == b.monster
    &&& a.blocks_tile == b.blocks_tile
    &&& a.name == b.name
}

/// How the melee phase changes a world: every intent is gone, and every
/// entity's pending damage has grown by the hits that landed on it. Nothing
/// else changes, health least of all.
pub open spec fn melee_resolved(before: World, after: World) -> bool {
    &&& after.len() == before.len()
    &&& forall|e: int|
        0 <= e < before.len() ==> {
            let was = before.slots@[e];
            let is = #[trigger] after.slots@[e];
            &&& same_but_combat(is, was)
            &&& is.wants_to_melee is None
            &&& pending(is) == pending(was) + hits_on(before.slots@, e, before.len())
            &&& hits_on(before.slots@, e, before.len()).len() == 0 ==> is.suffer_damage
                == was.suffer_damage
        }
}

/// A hit that has landed.
struct Hit {
    target: usize,
    amount: u32,
}

/// The melee phase.
pub struct MeleeCombatSystem {}

impl MeleeCombatSystem {
    /// Turns every intent to attack into pending damage on its target and
    /// removes the intent.
    pub fn run(&self, world: &mut World)
        ensures
            melee_resolved(*old(world), *final(world)),
    {
        let n = world.slots.len();
        let ghost start = world.slots@;
        let mut a: usize = 0;
        while a < n
            invariant
                a <= n,
                n == world.len(),
                start == old(world).slots@,
                n == start.len(),
                forall|e: int|
                    0 <= e < n ==> {
                        let was = start[e];
                        let is = #[trigger] world.slots@[e];
                        &&& same_but_combat(is, was)
                        &&& (e < a ==> is.wants_to_melee is None)
                        &&& (e >= a ==> is.wants_to_melee == was.wants_to_melee)
                        &&& pending(is) == pending(was) + hits_on(start, e, a as int)
                        &&& hits_on(start, e, a as int).len() == 0 ==> is.suffer_damage
                            == was.suffer_damage
                    },
            decreases n - a,
        {
            let ghost before = world.slots@;
            let mut landed: Option<Hit> = None;
            if world.slots[a].alive {
                if let Some(wants) = world.slots[a].wants_to_melee {
                    let t = wants.target.id;
                    if let Some(own) = world.slots[a].combat_stats {
                        if t < n && world.slots[t].alive {
                            if let Some(theirs) = world.slots[t].combat_stats {
                                landed = Some(Hit { target: t, amount: melee_damage(own.power, theirs.defense) });
                            }
                        }
                    }
                }
            }
            assert(landed is Some ==> strikes(start, a as int, landed->0.target as int) && landed->0.amount
                == hit_damage(start, a as int, landed->0.target as int));
            assert(landed is None ==> forall|t: int| !strikes(start, a as int, t));
            if let Some(hit) = landed {
                let t = hit.target;
                let damage = hit.amount;
                if world.slots[t].suffer_damage.is_none() {
                    world.slots[t].suffer_damage = Some(SufferDamage { amounts: Vec::new() });
                }
                if let Some(d) = &mut world.slots[t].suffer_damage {
                    d.amounts.push(damage);
                }
                assert(pending(world.slots@[t as int]) == pending(before[t as int]).push(damage));
            }
            world.slots[a].wants_to_melee = None;
            proof {
                assert forall|e: int| 0 <= e < n implies ({
                    let was = start[e];
                    let is = #[trigger] world.slots@[e];
                    &&& same_but_combat(is, was)
                    &&& (e < a + 1 ==> is.wants_to_melee is None)
                    &&& (e >= a + 1 ==> is.wants_to_melee == was.wants_to_melee)
                    &&& pending(is) == pending(was) + hits_on(start, e, a as int + 1)
                    &&& hits_on(start, e, a as int + 1).len() == 0 ==> is.suffer_damage
                        == was.suffer_damage
                }) by {
                    let was = start[e];
                    let then = before[e];
                    let is = world.slots@[e];
                    assert(pending(then) == pending(was) + hits_on(start, e, a as int));
                    if landed is Some && landed->0.target == e {
                        assert(strikes(start, a as int, e));
                        assert(hits_on(start, e, a as int + 1) == hits_on(start, e, a as int).push(
                            landed->0.amount,
                        ));
                        assert(pending(is) == pending(then).push(landed->0.amount));
                        assert(pending(is) =~= pending(was) + hits_on(start, e, a as int + 1));
                    } else {
                        assert(!strikes(start, a as int, e));
                        assert(is.suffer_damage == then.suffer_damage);
                    }
                }
            }
            a += 1;
        }
    }
}

/// The melee phase keeps a world well formed.
pub proof fn lemma_melee_keeps_wf(before: World, after: World, map: GameMap)
    requires
        before.wf(map),
        melee_resolved(before, after),
    ensures
        after.wf(map),
{
    assert forall|e: int| 0 <= e < after.len() implies (#[trigger] after.slots@[e]).fits(map) by {
        let was = before.slots@[e];
        let is = after.slots@[e];
        assert(was.fits(map));
        if !was.alive {
            lemma_no_hits_on_the_dead(before.slots@, e, before.len());
        }
    }
    assert forall|a: int, b: int|
        0 <= a < after.len() && 0 <= b < after.len() && (#[trigger] after.slots@[a]).is_player() && (
        #[trigger] after.slots@[b]).is_player() implies a == b by {
        assert(before.slots@[a].is_player());
        assert(before.slots@[b].is_player());
    }
}

/// Nothing lands on an entity that is not alive.
pub proof fn lemma_no_hits_on_the_dead(slots: Seq<Slot>, t: int, upto: int)
    requires
        0 <= t < slots.len(),
        !slots[t].alive,
    ensures
        hits_on(slots, t, upto).len() == 0,
    decreases upto,
{
    if upto > 0 {
        lemma_no_hits_on_the_dead(slots, t, upto - 1);
    }
}

} // verus!
