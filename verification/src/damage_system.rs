use vstd::prelude::*;
use crate::components::{CombatStats, DamageTaker};
use crate::world::{World, same_resources, same_slot, vacant};

verus! {

/// Applies the hits recorded this turn to the hit points.
pub struct DamageSystem;

/// Sum of the first `k` amounts of `s`.
pub open spec fn prefix_sum(s: Seq<i32>, k: int) -> int
    decreases k,
{
    if k <= 0 || k > s.len() {
        0
    } else {
        prefix_sum(s, k - 1) + s[k - 1] as int
    }
}

/// Sum of all amounts of `s`.
pub open spec fn total(s: Seq<i32>) -> int {
    prefix_sum(s, s.len() as int)
}

/// Adding the amounts up one by one never leaves the `i32` range.
pub open spec fn sums_fit(s: Seq<i32>) -> bool {
    forall|k: int| 0 <= k <= s.len() ==> i32::MIN <= #[trigger] prefix_sum(s, k) <= i32::MAX
}

/// The stats an entity has once the hits recorded in `taker` are applied.
pub open spec fn damaged(stats: Option<CombatStats>, taker: Option<DamageTaker>) -> Option<CombatStats> {
    match (stats, taker) {
        (Some(s), Some(d)) => Some(CombatStats { hp: (s.hp - total(d.amount@)) as i32, ..s }),
        _ => stats,
    }
}

/// Applying the hits to entity `e` stays within `i32`.
pub open spec fn damage_fits(w: World, e: int) -> bool {
    match (w.combat_stats@[e], w.damage_takers@[e]) {
        (Some(s), Some(d)) => sums_fit(d.amount@) && i32::MIN <= s.hp - total(d.amount@) <= i32::MAX,
        _ => true,
    }
}

/// What applying the recorded hits does: every entity's stats become those
/// `damaged` gives, all records are forgotten, and nothing else changes.
pub open spec fn damage_dealt(old: World, new: World) -> bool {
    &&& same_resources(new, old)
    &&& forall|e: int|
        0 <= e < new.len() ==> #[trigger] new.combat_stats@[e] == damaged(old.combat_stats@[e], old.damage_takers@[e])
    &&& forall|e: int| 0 <= e < new.len() ==> #[trigger] new.damage_takers@[e] is None
    &&& new.positions == old.positions
    &&& new.renderables == old.renderables
    &&& new.viewsheds == old.viewsheds
    &&& new.chasings == old.chasings
    &&& new.players == old.players
    &&& new.monsters == old.monsters
    &&& new.names == old.names
    &&& new.tile_blockings == old.tile_blockings
    &&& new.damage_dealers == old.damage_dealers
}

impl DamageSystem {
    /// Whether the hits recorded this turn can be applied as `damage_fits`
    /// says (when they cannot, applying them would overflow).
    pub fn applicable(ecs: &World) -> (ok: bool)
        requires
            ecs.wf(),
        ensures
            ok == forall|e: int| 0 <= e < ecs.len() ==> #[trigger] damage_fits(*ecs, e),
    {
        let n = ecs.positions.len();
        let mut e: usize = 0;
        while e < n
            invariant
                ecs.wf(),
                n == ecs.len(),
                0 <= e <= n,
                forall|j: int| 0 <= j < e ==> #[trigger] damage_fits(*ecs, j),
            decreases n - e,
        {
            if let (Some(stats), Some(damage)) = (ecs.combat_stats[e], ecs.damage_takers[e].as_ref()) {
                let mut sum: i64 = 0;
                let mut k: usize = 0;
                while k < damage.amount.len()
                    invariant
                        0 <= e < n,
                        n == ecs.len(),
                        ecs.combat_stats@[e as int] == Some(stats),
                        ecs.damage_takers@[e as int] == Some(*damage),
                        0 <= k <= damage.amount@.len(),
                        sum == prefix_sum(damage.amount@, k as int),
                        forall|j: int| 0 <= j <= k ==> i32::MIN <= #[trigger] prefix_sum(damage.amount@, j) <= i32::MAX,
                    decreases damage.amount@.len() - k,
                {
                    let next = sum + damage.amount[k] as i64;
                    assert(prefix_sum(damage.amount@, k + 1) == next);
                    if next < i32::MIN as i64 || next > i32::MAX as i64 {
                        assert(!(i32::MIN <= prefix_sum(damage.amount@, k + 1) <= i32::MAX));
                        assert(!sums_fit(damage.amount@));
                        assert(!damage_fits(*ecs, e as int));
                        return false;
                    }
                    sum = next;
                    k = k + 1;
                }
                let left = stats.hp as i64 - sum;
                if left < i32::MIN as i64 || left > i32::MAX as i64 {
                    assert(!damage_fits(*ecs, e as int));
                    return false;
                }
            }
            e = e + 1;
        }
        true
    }

    /// Every entity with combat stats loses the sum of the hits it took this
    /// turn; then all recorded hits are forgotten.
    pub fn run(&mut self, ecs: &mut World)
        requires
            old(ecs).wf(),
            forall|e: int| 0 <= e < old(ecs).len() ==> #[trigger] damage_fits(*old(ecs), e),
        ensures
            final(ecs).wf(),
            damage_dealt(*old(ecs), *final(ecs)),
    {
        let n = ecs.combat_stats.len();
        let mut e: usize = 0;
        while e < n
            invariant
                ecs.wf(),
                n == ecs.len(),
                0 <= e <= n,
                same_resources(*ecs, *old(ecs)),
                ecs.damage_takers == old(ecs).damage_takers,
                ecs.positions == old(ecs).positions,
                ecs.renderables == old(ecs).renderables,
                ecs.viewsheds == old(ecs).viewsheds,
                ecs.chasings == old(ecs).chasings,
                ecs.players == old(ecs).players,
                ecs.monsters == old(ecs).monsters,
                ecs.names == old(ecs).names,
                ecs.tile_blockings == old(ecs).tile_blockings,
                ecs.damage_dealers == old(ecs).damage_dealers,
                ecs.combat_stats@.len() == n,
                forall|j: int| 0 <= j < n ==> #[trigger] damage_fits(*old(ecs), j),
                forall|j: int|
                    0 <= j < e ==> #[trigger] ecs.combat_stats@[j] == damaged(
                        old(ecs).combat_stats@[j],
                        old(ecs).damage_takers@[j],
                    ),
                forall|j: int| e <= j < n ==> #[trigger] ecs.combat_stats@[j] == old(ecs).combat_stats@[j],
            decreases n - e,
        {
            if let Some(stats) = ecs.combat_stats[e] {
                if let Some(damage) = &ecs.damage_takers[e] {
                    assert(damage_fits(*old(ecs), e as int));
                    let mut sum: i32 = 0;
                    let mut k: usize = 0;
                    while k < damage.amount.len()
                        invariant
                            0 <= k <= damage.amount@.len(),
                            sums_fit(damage.amount@),
                            sum == prefix_sum(damage.amount@, k as int),
                        decreases damage.amount@.len() - k,
                    {
                        assert(i32::MIN <= prefix_sum(damage.amount@, k + 1) <= i32::MAX);
                        sum = sum + damage.amount[k];
                        k = k + 1;
                    }
                    ecs.combat_stats.set(e, Some(CombatStats { hp: stats.hp - sum, ..stats }));
                }
            }
            e = e + 1;
        }
        let mut e: usize = 0;
        while e < n
            invariant
                ecs.wf(),
                n == ecs.len(),
                0 <= e <= n,
                same_resources(*ecs, *old(ecs)),
                ecs.positions == old(ecs).positions,
                ecs.renderables == old(ecs).renderables,
                ecs.viewsheds == old(ecs).viewsheds,
                ecs.chasings == old(ecs).chasings,
                ecs.players == old(ecs).players,
                ecs.monsters == old(ecs).monsters,
                ecs.names == old(ecs).names,
                ecs.tile_blockings == old(ecs).tile_blockings,
                ecs.damage_dealers == old(ecs).damage_dealers,
                ecs.damage_takers@.len() == n,
                forall|j: int|
                    0 <= j < n ==> #[trigger] ecs.combat_stats@[j] == damaged(
                        old(ecs).combat_stats@[j],
                        old(ecs).damage_takers@[j],
                    ),
                forall|j: int| 0 <= j < e ==> #[trigger] ecs.damage_takers@[j] is None,
            decreases n - e,
        {
            ecs.damage_takers.set(e, None);
            e = e + 1;
        }
    }
}

/// Entity `e` has fallen: it has combat stats and no hit points left.
pub open spec fn fallen(w: World, e: int) -> bool {
    w.combat_stats@[e] is Some && w.combat_stats@[e]->0.hp <= 0
}

/// What removing the corpses does: every fallen entity but the player loses
/// all its components, every other entity keeps them, and the flag tells
/// whether the player has fallen.
pub open spec fn corpses_removed(before: World, after: World, player_dead: bool) -> bool {
    &&& same_resources(after, before)
    &&& player_dead == fallen(before, before.player_entity as int)
    &&& forall|e: int|
        0 <= e < before.len() && fallen(before, e) && e != before.player_entity ==> #[trigger] vacant(after, e)
    &&& forall|e: int|
        0 <= e < before.len() && !(fallen(before, e) && e != before.player_entity) ==> #[trigger] same_slot(
            after,
            before,
            e,
        )
}

/// Removes every fallen entity but the player, and tells whether the player
/// has fallen.
pub fn remove_corpses(ecs: &mut World) -> (player_dead: bool)
    requires
        old(ecs).wf(),
    ensures
        final(ecs).wf(),
        same_resources(*final(ecs), *old(ecs)),
        corpses_removed(*old(ecs), *final(ecs), player_dead),
{
    let n = ecs.combat_stats.len();
    let mut player_dead = false;
    let mut e: usize = 0;
    while e < n
        invariant
            ecs.wf(),
            n == ecs.len(),
            0 <= e <= n,
            same_resources(*ecs, *old(ecs)),
            player_dead == (ecs.player_entity < e && fallen(*old(ecs), old(ecs).player_entity as int)),
            forall|j: int|
                0 <= j < e && fallen(*old(ecs), j) && j != old(ecs).player_entity ==> #[trigger] vacant(*ecs, j),
            forall|j: int|
                0 <= j < n && !(j < e && fallen(*old(ecs), j) && j != old(ecs).player_entity) ==> #[trigger] same_slot(
                    *ecs,
                    *old(ecs),
                    j,
                ),
        decreases n - e,
    {
        assert(same_slot(*ecs, *old(ecs), e as int));
        let ghost prev = *ecs;
        if let Some(stats) = ecs.combat_stats[e] {
            if stats.hp <= 0 {
                if ecs.players[e].is_some() {
                    player_dead = true;
                } else {
                    ecs.delete_entity(e);
                    assert forall|j: int|
                        0 <= j < n && !(j < e + 1 && fallen(*old(ecs), j) && j != old(ecs).player_entity) implies #[trigger] same_slot(
                            *ecs,
                            *old(ecs),
                            j,
                        ) by {
                        assert(same_slot(*ecs, prev, j));
                        assert(same_slot(prev, *old(ecs), j));
                    }
                    assert forall|j: int|
                        0 <= j < e + 1 && fallen(*old(ecs), j) && j != old(ecs).player_entity implies #[trigger] vacant(*ecs, j) by {
                        if j < e {
                            assert(vacant(prev, j));
                            assert(same_slot(*ecs, prev, j));
                        }
                    }
                }
            }
        }
        e = e + 1;
    }
    player_dead
}


/// Hits of positive amounts only ever lower hit points: when every recorded
/// amount is positive, the stats after the hits are applied have no more hit
/// points than before, strictly fewer when there was a hit, and are otherwise
/// unchanged.
pub proof fn lemma_damage_only_lowers_hp(stats: CombatStats, taker: DamageTaker)
    requires
        forall|j: int| 0 <= j < taker.amount@.len() ==> #[trigger] taker.amount@[j] > 0,
        i32::MIN <= stats.hp - total(taker.amount@),
    ensures
        damaged(Some(stats), Some(taker)) is Some,
        damaged(Some(stats), Some(taker))->0.hp <= stats.hp,
        taker.amount@.len() > 0 ==> damaged(Some(stats), Some(taker))->0.hp < stats.hp,
        damaged(Some(stats), Some(taker))->0.max_hp == stats.max_hp,
        damaged(Some(stats), Some(taker))->0.defense == stats.defense,
        damaged(Some(stats), Some(taker))->0.power == stats.power,
{
    lemma_prefix_sum_positive(taker.amount@, taker.amount@.len() as int);
}

proof fn lemma_prefix_sum_positive(s: Seq<i32>, k: int)
    requires
        forall|j: int| 0 <= j < s.len() ==> #[trigger] s[j] > 0,
        0 <= k <= s.len(),
    ensures
        prefix_sum(s, k) >= 0,
        k > 0 ==> prefix_sum(s, k) > 0,
    decreases k,
{
    if k > 0 {
        lemma_prefix_sum_positive(s, k - 1);
    }
}

/// The damage applied is the plain sum of the recorded hits: no hits add up
/// to nothing, and one more hit adds exactly its amount, whatever came
/// before it.
pub proof fn lemma_total_adds_each_hit(s: Seq<i32>, a: i32)
    ensures
        total(Seq::<i32>::empty()) == 0,
        total(s.push(a)) == total(s) + a,
{
    lemma_prefix_sum_of_push(s, a, s.len() as int);
}

/// Appending an amount leaves the sums of the earlier prefixes as they were.
proof fn lemma_prefix_sum_of_push(s: Seq<i32>, a: i32, k: int)
    requires
        0 <= k <= s.len(),
    ensures
        prefix_sum(s.push(a), k) == prefix_sum(s, k),
    decreases k,
{
    if k > 0 {
        lemma_prefix_sum_of_push(s, a, k - 1);
        assert(s.push(a)[k - 1] == s[k - 1]);
    }
}

} // verus!
