use vstd::prelude::*;
use crate::components::{DamageTaker, Entity, recorded_damage};
use crate::world::World;

verus! {

/// Resolves the attacks entities declared this turn.
pub struct MeleeCombatSystem;

/// One attack as it was resolved: `damage` is what `attacker` dealt to
/// `target`; zero means the attacker could not hurt the target.
#[derive(Clone, Copy, PartialEq, Eq, Structural, Debug)]
pub struct MeleeEvent {
    pub attacker: Entity,
    pub target: Entity,
    pub damage: i32,
}

/// The attack entity `e` carries out this turn, if any: `e` must have declared
/// one, have a name and combat stats and still be alive, and its target must
/// still be alive; the damage is the attacker's power less the target's
/// defense, and never negative.
pub open spec fn attack_of(w: World, e: int) -> Option<MeleeEvent> {
    if w.damage_dealers@[e] is Some && w.names@[e] is Some && w.combat_stats@[e] is Some
        && w.combat_stats@[e]->0.hp > 0 {
        let t = w.damage_dealers@[e]->0.target;
        let ts = w.combat_stats@[t as int]->0;
        if ts.hp > 0 {
            let raw = w.combat_stats@[e]->0.power - ts.defense;
            Some(MeleeEvent { attacker: e as Entity, target: t, damage: if raw > 0 { raw as i32 } else { 0i32 } })
        } else {
            None
        }
    } else {
        None
    }
}

/// The attacks of the entities before `k`, in entity order.
pub open spec fn attacks_before(w: World, k: int) -> Seq<MeleeEvent>
    decreases k,
{
    if k <= 0 {
        Seq::empty()
    } else {
        match attack_of(w, k - 1) {
            Some(a) => attacks_before(w, k - 1).push(a),
            None => attacks_before(w, k - 1),
        }
    }
}

/// The damage that hurt `t`, dealt by the entities before `k`, in entity order.
pub open spec fn hits_on(w: World, t: int, k: int) -> Seq<i32>
    decreases k,
{
    if k <= 0 {
        Seq::empty()
    } else {
        match attack_of(w, k - 1) {
            Some(a) => if a.target == t && a.damage > 0 {
                hits_on(w, t, k - 1).push(a.damage)
            } else {
                hits_on(w, t, k - 1)
            },
            None => hits_on(w, t, k - 1),
        }
    }
}

/// An attacker that is alive with a name and stats aims at an entity with
/// combat stats; when that target is alive it has a name, and the
/// difference of power and defense fits an `i32`.
pub open spec fn attack_resolvable(w: World, e: int) -> bool {
    w.damage_dealers@[e] is Some && w.names@[e] is Some && w.combat_stats@[e] is Some && w.combat_stats@[e]->0.hp > 0
        ==> {
        let t = w.damage_dealers@[e]->0.target as int;
        &&& w.combat_stats@[t] is Some
        &&& w.combat_stats@[t]->0.hp > 0 ==> {
            &&& w.names@[t] is Some
            &&& i32::MIN <= w.combat_stats@[e]->0.power - w.combat_stats@[t]->0.defense <= i32::MAX
        }
    }
}

/// What resolving the declared attacks does: the attacks carried out are
/// those of `attacks_before`, every damage above zero is appended to its
/// target's record in entity order, all declared attacks are forgotten, and
/// nothing else changes.
pub open spec fn attacks_resolved(old: World, new: World, events: Seq<MeleeEvent>) -> bool {
    &&& events == attacks_before(old, old.len())
    &&& forall|e: int| 0 <= e < new.len() ==> #[trigger] new.damage_dealers@[e] is None
    &&& forall|t: int|
        0 <= t < new.len() ==> recorded_damage(#[trigger] new.damage_takers@[t]) == recorded_damage(
            old.damage_takers@[t],
        ) + hits_on(old, t, old.len())
    &&& forall|t: int|
        0 <= t < new.len() ==> ((#[trigger] new.damage_takers@[t]) is Some <==> (old.damage_takers@[t] is Some
            || hits_on(old, t, old.len()).len() > 0))
    &&& new.map == old.map
    &&& new.positions == old.positions
    &&& new.renderables == old.renderables
    &&& new.viewsheds == old.viewsheds
    &&& new.chasings == old.chasings
    &&& new.players == old.players
    &&& new.monsters == old.monsters
    &&& new.names == old.names
    &&& new.tile_blockings == old.tile_blockings
    &&& new.combat_stats == old.combat_stats
    &&& new.player_entity == old.player_entity
    &&& new.player_position == old.player_position
    &&& new.run_state == old.run_state
    &&& new.damage_dealers@.len() == old.damage_dealers@.len()
    &&& new.damage_takers@.len() == old.damage_takers@.len()
}

impl MeleeCombatSystem {
    /// Whether every declared attack can be resolved as `attack_resolvable`
    /// says (when one cannot, resolving the attacks would fail).
    pub fn resolvable(ecs: &World) -> (ok: bool)
        requires
            ecs.wf(),
        ensures
            ok == forall|e: int| 0 <= e < ecs.len() ==> #[trigger] attack_resolvable(*ecs, e),
    {
        let n = ecs.positions.len();
        let mut e: usize = 0;
        while e < n
            invariant
                ecs.wf(),
                n == ecs.len(),
                0 <= e <= n,
                forall|j: int| 0 <= j < e ==> #[trigger] attack_resolvable(*ecs, j),
            decreases n - e,
        {
            if let (Some(dealer), Some(_name), Some(stats)) = (
                ecs.damage_dealers[e],
                ecs.names[e].as_ref(),
                ecs.combat_stats[e],
            ) {
                if stats.hp > 0 {
                    let t = dealer.target;
                    match ecs.combat_stats[t] {
                        None => {
                            assert(!attack_resolvable(*ecs, e as int));
                            return false;
                        },
                        Some(target_stats) => {
                            if target_stats.hp > 0 {
                                if ecs.names[t].is_none() {
                                    assert(!attack_resolvable(*ecs, e as int));
                                    return false;
                                }
                                let diff = stats.power as i64 - target_stats.defense as i64;
                                if diff < i32::MIN as i64 || diff > i32::MAX as i64 {
                                    assert(!attack_resolvable(*ecs, e as int));
                                    return false;
                                }
                            }
                        },
                    }
                }
            }
            e = e + 1;
        }
        true
    }

    /// Resolves every declared attack in entity order, records each damage
    /// above zero on its target, and then forgets all declared attacks. The
    /// attacks resolved are returned for the message log.
    pub fn run(&mut self, ecs: &mut World) -> (events: Vec<MeleeEvent>)
        requires
            old(ecs).wf(),
            forall|e: int| 0 <= e < old(ecs).len() ==> #[trigger] attack_resolvable(*old(ecs), e),
        ensures
            final(ecs).wf(),
            attacks_resolved(*old(ecs), *final(ecs), events@),
    {
        let n = ecs.combat_stats.len();
        let mut events: Vec<MeleeEvent> = Vec::new();
        let mut e: usize = 0;
        while e < n
            invariant
                ecs.wf(),
                n == old(ecs).len(),
                0 <= e <= n,
                ecs.map == old(ecs).map,
                ecs.positions == old(ecs).positions,
                ecs.renderables == old(ecs).renderables,
                ecs.viewsheds == old(ecs).viewsheds,
                ecs.chasings == old(ecs).chasings,
                ecs.players == old(ecs).players,
                ecs.monsters == old(ecs).monsters,
                ecs.names == old(ecs).names,
                ecs.tile_blockings == old(ecs).tile_blockings,
                ecs.combat_stats == old(ecs).combat_stats,
                ecs.damage_dealers == old(ecs).damage_dealers,
                ecs.player_entity == old(ecs).player_entity,
                ecs.player_position == old(ecs).player_position,
                ecs.run_state == old(ecs).run_state,
                ecs.damage_takers@.len() == n,
                forall|j: int| 0 <= j < n ==> #[trigger] attack_resolvable(*old(ecs), j),
                events@ == attacks_before(*old(ecs), e as int),
                forall|t: int|
                    0 <= t < n ==> recorded_damage(#[trigger] ecs.damage_takers@[t]) == recorded_damage(
                        old(ecs).damage_takers@[t],
                    ) + hits_on(*old(ecs), t, e as int),
                forall|t: int|
                    0 <= t < n ==> ((#[trigger] ecs.damage_takers@[t]) is Some <==> (old(ecs).damage_takers@[t] is Some
                        || hits_on(*old(ecs), t, e as int).len() > 0)),
            decreases n - e,
        {
            assert(attack_resolvable(*old(ecs), e as int));
            let ghost prev = *ecs;
            if let (Some(dealer), Some(_name), Some(dealer_stats)) = (
                ecs.damage_dealers[e],
                ecs.names[e].as_ref(),
                ecs.combat_stats[e],
            ) {
                if dealer_stats.hp > 0 {
                    let target = dealer.target;
                    let target_stats = ecs.combat_stats[target].unwrap();
                    if target_stats.hp > 0 {
                        let raw = dealer_stats.power - target_stats.defense;
                        let damage_taken = if raw > 0 { raw } else { 0 };
                        events.push(MeleeEvent { attacker: e, target, damage: damage_taken });
                        if damage_taken > 0 {
                            DamageTaker::take_damage(ecs, target, damage_taken);
                        }
                    }
                }
            }
            proof {
                assert forall|t: int| 0 <= t < n implies recorded_damage(#[trigger] ecs.damage_takers@[t])
                    == recorded_damage(old(ecs).damage_takers@[t]) + hits_on(*old(ecs), t, e + 1) && ((
                    ecs.damage_takers@[t] is Some) <==> (old(ecs).damage_takers@[t] is Some || hits_on(
                    *old(ecs),
                    t,
                    e + 1,
                ).len() > 0)) by {
                    assert(recorded_damage(prev.damage_takers@[t]) == recorded_damage(old(ecs).damage_takers@[t])
                        + hits_on(*old(ecs), t, e as int));
                    assert(prev.damage_takers@[t] is Some <==> (old(ecs).damage_takers@[t] is Some || hits_on(
                        *old(ecs),
                        t,
                        e as int,
                    ).len() > 0));
                }
            }
            e = e + 1;
        }
        let mut e: usize = 0;
        while e < n
            invariant
                ecs.wf(),
                n == old(ecs).len(),
                0 <= e <= n,
                ecs.map == old(ecs).map,
                ecs.positions == old(ecs).positions,
                ecs.renderables == old(ecs).renderables,
                ecs.viewsheds == old(ecs).viewsheds,
                ecs.chasings == old(ecs).chasings,
                ecs.players == old(ecs).players,
                ecs.monsters == old(ecs).monsters,
                ecs.names == old(ecs).names,
                ecs.tile_blockings == old(ecs).tile_blockings,
                ecs.combat_stats == old(ecs).combat_stats,
                ecs.player_entity == old(ecs).player_entity,
                ecs.player_position == old(ecs).player_position,
                ecs.run_state == old(ecs).run_state,
                ecs.damage_takers@.len() == n,
                ecs.damage_dealers@.len() == n,
                forall|t: int|
                    0 <= t < n ==> recorded_damage(#[trigger] ecs.damage_takers@[t]) == recorded_damage(
                        old(ecs).damage_takers@[t],
                    ) + hits_on(*old(ecs), t, n as int),
                forall|t: int|
                    0 <= t < n ==> ((#[trigger] ecs.damage_takers@[t]) is Some <==> (old(ecs).damage_takers@[t] is Some
                        || hits_on(*old(ecs), t, n as int).len() > 0)),
                forall|j: int| 0 <= j < e ==> #[trigger] ecs.damage_dealers@[j] is None,
            decreases n - e,
        {
            ecs.damage_dealers.set(e, None);
            e = e + 1;
        }
        events
    }
}


/// Only the living fight: an attack is carried out only by an attacker with
/// hit points left, on a target with hit points left, and it never does
/// negative damage.
pub proof fn lemma_only_the_living_fight(w: World, e: int)
    requires
        0 <= e < w.len(),
        w.len() <= usize::MAX,
        attack_resolvable(w, e),
        attack_of(w, e) is Some,
    ensures
        w.combat_stats@[e]->0.hp > 0,
        w.combat_stats@[attack_of(w, e)->0.target as int]->0.hp > 0,
        attack_of(w, e)->0.damage >= 0,
        attack_of(w, e)->0.attacker == e,
{
}

/// A target with no hit points left takes no hit, and every hit taken is
/// positive.
pub proof fn lemma_hits_on_living_and_positive(w: World, t: int, k: int)
    ensures
        w.combat_stats@[t] is Some && w.combat_stats@[t]->0.hp <= 0 ==> hits_on(w, t, k).len() == 0,
        forall|j: int| 0 <= j < hits_on(w, t, k).len() ==> #[trigger] hits_on(w, t, k)[j] > 0,
    decreases k,
{
    if k > 0 {
        lemma_hits_on_living_and_positive(w, t, k - 1);
        let prev = hits_on(w, t, k - 1);
        assert forall|j: int| 0 <= j < hits_on(w, t, k).len() implies #[trigger] hits_on(w, t, k)[j] > 0 by {
            if j < prev.len() {
                assert(hits_on(w, t, k)[j] == prev[j]);
            }
        }
    }
}

/// A hit does what the attacker's power exceeds the target's defense by:
/// never less than zero, and exactly that excess when there is one. A
/// stronger attacker never does less damage to the same target.
pub proof fn lemma_damage_is_power_over_defense(w: World, e: int)
    requires
        attack_resolvable(w, e),
        attack_of(w, e) is Some,
    ensures
        ({
            let a = attack_of(w, e)->0;
            let excess = w.combat_stats@[e]->0.power - w.combat_stats@[a.target as int]->0.defense;
            &&& a.target == w.damage_dealers@[e]->0.target
            &&& a.damage >= 0
            &&& a.damage >= excess
            &&& excess > 0 ==> a.damage == excess
            &&& excess <= 0 ==> a.damage == 0
        }),
{
}

} // verus!
