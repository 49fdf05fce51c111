//! The damage phase of combat and the removal of the dead.

use vstd::prelude::*;
use crate::components::CombatStats;
use crate::map::GameMap;
use crate::melee_combat_system::{hits_on, melee_resolved, pending};
use crate::world::{Slot, World};

verus! {

/// The sum of the amounts.
pub open spec fn damage_total(amounts: Seq<u32>) -> int
    decreases amounts.len(),
{
    if amounts.len() == 0 {
        0
    } else {
        damage_total(amounts.drop_last()) + amounts.last()
    }
}

/// Health after `total` damage: the difference, held at the least `i32`.
pub open spec fn hp_after(hp: int, total: int) -> int {
    if hp - total < i32::MIN {
        i32::MIN as int
    } else {
        hp - total
    }
}

/// The slot after the damage phase: the pending damage is gone and, where the
/// entity has combat stats, taken from its health.
pub open spec fn with_damage_taken(before: Slot) -> Slot {
    Slot {
        combat_stats: match (before.combat_stats, before.suffer_damage) {
            (Some(stats), Some(damage)) => Some(
                CombatStats {
                    hp: hp_after(stats.hp as int, damage_total(damage.amounts@)) as i32,
                    ..stats
                },
            ),
            _ => before.combat_stats,
        },
        suffer_damage: None,
        ..before
    }
}

/// How the damage phase changes a world.
pub open spec fn damage_applied(before: World, after: World) -> bool {
    &&& after.len() == before.len()
    &&& forall|e: int|
        0 <= e < before.len() ==> #[trigger] after.slots@[e] == with_damage_taken(before.slots@[e])
}

/// Whether the entity has been defeated: it is alive and its health is used
/// up.
pub open spec fn is_defeated(slot: Slot) -> bool {
    slot.alive && slot.combat_stats is Some && slot.combat_stats->0.hp <= 0
}

/// How the removal of the dead changes a world: a defeated entity is gone with
/// all its records, every other slot is untouched.
pub open spec fn dead_removed(before: World, after: World) -> bool {
    &&& after.len() == before.len()
    &&& forall|e: int|
        0 <= e < before.len() ==> if is_defeated(before.slots@[e]) {
            !(#[trigger] after.slots@[e]).alive && after.slots@[e].is_bare()
        } else {
            after.slots@[e] == before.slots@[e]
        }
}

/// The sum of the amounts, held at `cap`.
fn capped_total(amounts: &Vec<u32>, cap: u64) -> (total: u64)
    requires
        cap <= 0x1_0000_0000_0000,
    ensures
        damage_total(amounts@) <= cap ==> total == damage_total(amounts@),
        damage_total(amounts@) > cap ==> total == cap,
{
    let mut total: u64 = 0;
    let mut k: usize = 0;
    while k < amounts.len()
        invariant
            k <= amounts@.len(),
            cap <= 0x1_0000_0000_0000,
            damage_total(amounts@.take(k as int)) <= cap ==> total == damage_total(
                amounts@.take(k as int),
            ),
            damage_total(amounts@.take(k as int)) > cap ==> total == cap,
        decreases amounts@.len() - k,
    {
        proof {
            assert(amounts@.take(k as int + 1).drop_last() == amounts@.take(k as int));
            lemma_total_is_not_negative(amounts@.take(k as int));
        }
        total = total + amounts[k] as u64;
        if total > cap {
            total = cap;
        }
        k += 1;
    }
    proof {
        assert(amounts@.take(k as int) == amounts@);
    }
    total
}

/// A sum of damage is not negative.
pub proof fn lemma_total_is_not_negative(amounts: Seq<u32>)
    ensures
        damage_total(amounts) >= 0,
    decreases amounts.len(),
{
    if amounts.len() > 0 {
        lemma_total_is_not_negative(amounts.drop_last());
    }
}

/// The damage phase.
pub struct DamageSystem {}

impl DamageSystem {
    /// Takes every entity's pending damage from its health and clears it.
    pub fn run(&self, world: &mut World)
        ensures
            damage_applied(*old(world), *final(world)),
    {
        let n = world.slots.len();
        let mut e: usize = 0;
        while e < n
            invariant
                e <= n,
                n == world.len(),
                n == old(world).len(),
                forall|o: int|
                    0 <= o < e ==> #[trigger] world.slots@[o] == with_damage_taken(
                        old(world).slots@[o],
                    ),
                forall|o: int| e <= o < n ==> #[trigger] world.slots@[o] == old(world).slots@[o],
            decreases n - e,
        {
            let mut total: Option<u64> = None;
            if let Some(damage) = &world.slots[e].suffer_damage {
                total = Some(capped_total(&damage.amounts, 0x2_0000_0000));
            }
            if let Some(total) = total {
                proof {
                    lemma_total_is_not_negative(world.slots@[e as int].suffer_damage->0.amounts@);
                }
                if let Some(stats) = &mut world.slots[e].combat_stats {
                    let left: i64 = stats.hp as i64 - total as i64;
                    stats.hp = if left < i32::MIN as i64 {
                        i32::MIN
                    } else {
                        left as i32
                    };
                }
            }
            world.slots[e].suffer_damage = None;
            assert(world.slots@[e as int] == with_damage_taken(old(world).slots@[e as int]));
            e += 1;
        }
    }
}

/// Removes every defeated entity from the world, with all its records.
pub fn delete_the_dead(world: &mut World)
    ensures
        dead_removed(*old(world), *final(world)),
{
    let n = world.slots.len();
    let mut e: usize = 0;
    while e < n
        invariant
            e <= n,
            n == world.len(),
            n == old(world).len(),
            forall|o: int|
                0 <= o < e ==> if is_defeated(old(world).slots@[o]) {
                    !(#[trigger] world.slots@[o]).alive && world.slots@[o].is_bare()
                } else {
                    world.slots@[o] == old(world).slots@[o]
                },
            forall|o: int| e <= o < n ==> #[trigger] world.slots@[o] == old(world).slots@[o],
        decreases n - e,
    {
        let mut defeated = false;
        if world.slots[e].alive {
            if let Some(stats) = world.slots[e].combat_stats {
                defeated = stats.hp <= 0;
            }
        }
        if defeated {
            world.slots[e] = Slot::vacant();
        }
        e += 1;
    }
}

/// The damage phase keeps a world well formed, and so does the removal of the
/// dead.
pub proof fn lemma_damage_keeps_wf(before: World, after: World, map: GameMap)
    requires
        before.wf(map),
        damage_applied(before, after) || dead_removed(before, after),
    ensures
        after.wf(map),
{
    assert forall|e: int| 0 <= e < after.len() implies (#[trigger] after.slots@[e]).fits(map) by {
        assert(before.slots@[e].fits(map));
    }
    assert forall|a: int, b: int|
        0 <= a < after.len() && 0 <= b < after.len() && (#[trigger] after.slots@[a]).is_player() && (
        #[trigger] after.slots@[b]).is_player() implies a == b by {
        assert(before.slots@[a].is_player());
        assert(before.slots@[b].is_player());
    }
}

/// Damage never raises health.
pub proof fn lemma_damage_lowers_health(before: Slot)
    requires
        before.combat_stats is Some,
    ensures
        with_damage_taken(before).combat_stats is Some,
        with_damage_taken(before).combat_stats->0.hp <= before.combat_stats->0.hp,
        with_damage_taken(before).combat_stats->0.max_hp == before.combat_stats->0.max_hp,
{
    if before.suffer_damage is Some {
        lemma_total_is_not_negative(before.suffer_damage->0.amounts@);
    }
}

/// Combat resolves all hits before any death: where the damage that waits
/// on an entity and the hits that land on it in one pass use up its health,
/// the entity is removed by that pass, once and with all its records,
/// however many attackers struck it. No intent to attack outlives the pass,
/// and no damage is left waiting.
pub proof fn lemma_lethal_hits_remove_the_target(
    before: World,
    struck: World,
    hurt: World,
    after: World,
    t: int,
)
    requires
        melee_resolved(before, struck),
        damage_applied(struck, hurt),
        dead_removed(hurt, after),
        0 <= t < before.len(),
        before.slots@[t].alive,
        before.slots@[t].combat_stats is Some,
        before.slots@[t].combat_stats->0.hp - damage_total(
            pending(before.slots@[t]) + hits_on(before.slots@, t, before.len()),
        ) <= 0,
    ensures
        !after.slots@[t].alive,
        after.slots@[t].is_bare(),
        forall|e: int|
            0 <= e < before.len() ==> (#[trigger] after.slots@[e]).wants_to_melee is None
                && after.slots@[e].suffer_damage is None,
{
    let s = struck.slots@[t];
    assert(pending(s) == pending(before.slots@[t]) + hits_on(before.slots@, t, before.len()));
    assert(hurt.slots@[t] == with_damage_taken(s));
    if s.suffer_damage is None {
        assert(pending(s).len() == 0);
    }
    assert(is_defeated(hurt.slots@[t]));
    assert forall|e: int| 0 <= e < before.len() implies (#[trigger] after.slots@[e]).wants_to_melee is None
        && after.slots@[e].suffer_damage is None by {
        assert(struck.slots@[e].wants_to_melee is None);
        assert(hurt.slots@[e] == with_damage_taken(struck.slots@[e]));
    }
}

} // verus!
