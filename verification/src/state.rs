use vstd::prelude::*;
use crate::components::{CombatStats, Entity, Point, Position, Renderable, recorded_damage};
use crate::damage_system::{
    DamageSystem, corpses_removed, damage_dealt, damage_fits, fallen, remove_corpses, total,
};
use crate::map::{GameMap, idx_of, lemma_idx_bounds};
use crate::map_indexing_system::{MapIndexingSystem, map_indexed};
use crate::melee_combat_system::{MeleeCombatSystem, MeleeEvent, attack_resolvable, attacks_resolved, hits_on};
use crate::monster_ai_system::{MonsterAI, MonsterPlan, spec_plan};
use crate::player::{Key, handle_player_input, key_delta, player_stepped};
use crate::visibility_system::{VisibilitySystem, needs_view};
use crate::world::{SCREEN_HEIGHT, SCREEN_WIDTH, World, populated, same_slot, vacant};

verus! {

/// Whose move it is.
#[derive(Clone, Copy, PartialEq, Eq, Structural, Debug)]
pub enum RunState {
    AwaitingInput,
    PreRun,
    PlayerTurn,
    MonsterTurn,
}

/// The run state once the systems have run for a tick: the game waits for
/// the player after the start and after the monsters' turn, and the monsters'
/// turn follows the player's.
pub open spec fn spec_after_systems(s: RunState) -> RunState {
    match s {
        RunState::PreRun => RunState::AwaitingInput,
        RunState::PlayerTurn => RunState::MonsterTurn,
        RunState::MonsterTurn => RunState::AwaitingInput,
        RunState::AwaitingInput => RunState::AwaitingInput,
    }
}

/// The run state a tick ends in: while waiting for input, a movement key
/// hands the turn to the player and anything else keeps waiting; otherwise
/// the state moves on as `spec_after_systems` says.
pub open spec fn spec_next_state(s: RunState, key: Option<Key>) -> RunState {
    if s == RunState::AwaitingInput {
        match key {
            Some(k) => if key_delta(k) is Some { RunState::PlayerTurn } else { RunState::AwaitingInput },
            None => RunState::AwaitingInput,
        }
    } else {
        spec_after_systems(s)
    }
}

/// What the player's input does to the world in a tick: only while waiting
/// for input, a movement key steps the player as `player_stepped` says.
pub open spec fn input_applied(old: World, new: World, key: Option<Key>) -> bool {
    if old.run_state == RunState::AwaitingInput && key is Some && key_delta(key->0) is Some {
        let d = key_delta(key->0)->0;
        player_stepped(old, new, d.0 as int, d.1 as int)
    } else {
        new == old
    }
}

/// The game: its world of entities and resources.
pub struct State {
    pub ecs: World,
}

/// Entity `e` is drawn this frame: it has a position and a look, and its
/// cell is in the player's view.
pub open spec fn drawn(w: World, e: int) -> bool {
    &&& w.positions@[e] is Some
    &&& w.renderables@[e] is Some
    &&& w.map.visible_tiles@[idx_of(w.map.width as int, w.positions@[e]->0.x as int, w.positions@[e]->0.y as int)]
}

/// The entities before `k` that are drawn, with where and how, in entity
/// order.
pub open spec fn drawn_before(w: World, k: int) -> Seq<(Position, Renderable)>
    decreases k,
{
    if k <= 0 {
        Seq::empty()
    } else if drawn(w, k - 1) {
        drawn_before(w, k - 1).push((w.positions@[k - 1]->0, w.renderables@[k - 1]->0))
    } else {
        drawn_before(w, k - 1)
    }
}

impl State {
    /// A new game on a freshly generated level the size of the console,
    /// peopled as `World::new` does.
    pub fn new_game() -> (state: State)
        ensures
            state.ecs.wf(),
            state.ecs.map.width == SCREEN_WIDTH,
            state.ecs.map.height == SCREEN_HEIGHT,
            state.ecs.map.layout_ok(),
            populated(state.ecs.map, state.ecs),
    {
        let map = GameMap::new(SCREEN_WIDTH, SCREEN_HEIGHT);
        State { ecs: World::new(map) }
    }

    /// Whether the systems run this tick: they do unless the game waits for
    /// the player's input.
    pub fn systems_due(&self) -> (due: bool)
        ensures
            due == (self.ecs.run_state != RunState::AwaitingInput),
    {
        self.ecs.run_state != RunState::AwaitingInput
    }

    /// Ends a tick. While waiting for input, the key pressed (if any) is
    /// handled as `handle_player_input` says; otherwise the systems have run
    /// and the run state moves on as `spec_after_systems` says. Then every
    /// fallen entity but the player is removed. Returns whether the player
    /// has fallen.
    pub fn end_tick(&mut self, key: Option<Key>) -> (player_dead: bool)
        requires
            old(self).ecs.wf(),
        ensures
            final(self).ecs.wf(),
            exists|stepped: World|
                #[trigger] input_applied(old(self).ecs, stepped, key) && corpses_removed(
                    World { run_state: spec_next_state(old(self).ecs.run_state, key), ..stepped },
                    final(self).ecs,
                    player_dead,
                ),
            final(self).ecs.run_state == spec_next_state(old(self).ecs.run_state, key),
            player_dead == fallen(final(self).ecs, final(self).ecs.player_entity as int),
            forall|e: int|
                0 <= e < final(self).ecs.len() && e != final(self).ecs.player_entity ==> !fallen(
                    #[trigger] final(self).ecs,
                    e,
                ),
    {
        let next = if self.ecs.run_state == RunState::AwaitingInput {
            handle_player_input(&mut self.ecs, key)
        } else {
            match self.ecs.run_state {
                RunState::PreRun => RunState::AwaitingInput,
                RunState::PlayerTurn => RunState::MonsterTurn,
                _ => RunState::AwaitingInput,
            }
        };
        let ghost stepped = self.ecs;
        self.ecs.run_state = next;
        let ghost before = self.ecs;
        assert(before == World { run_state: spec_next_state(old(self).ecs.run_state, key), ..stepped });
        let player_dead = remove_corpses(&mut self.ecs);
        proof {
            assert forall|e: int|
                0 <= e < self.ecs.len() && e != self.ecs.player_entity implies !fallen(#[trigger] self.ecs, e) by {
                if fallen(before, e) {
                    assert(vacant(self.ecs, e));
                } else {
                    assert(same_slot(self.ecs, before, e));
                }
            }
            assert(same_slot(self.ecs, before, self.ecs.player_entity as int));
            assert(input_applied(old(self).ecs, stepped, key));
        }
        player_dead
    }

    /// The entities to draw this frame, as `drawn_before` lists them.
    pub fn drawn_entities(&self) -> (list: Vec<(Position, Renderable)>)
        requires
            self.ecs.wf(),
        ensures
            list@ == drawn_before(self.ecs, self.ecs.len()),
    {
        let n = self.ecs.positions.len();
        let mut list: Vec<(Position, Renderable)> = Vec::new();
        let mut e: usize = 0;
        while e < n
            invariant
                self.ecs.wf(),
                n == self.ecs.len(),
                0 <= e <= n,
                list@ == drawn_before(self.ecs, e as int),
            decreases n - e,
        {
            if let (Some(position), Some(renderable)) = (self.ecs.positions[e], self.ecs.renderables[e]) {
                assert(self.ecs.placed(e as int));
                let ghost w = self.ecs.map.width as int;
                let ghost h = self.ecs.map.height as int;
                proof {
                    lemma_idx_bounds(w, h, position.x as int, position.y as int);
                    assert(position.y * w <= i32::MAX) by (nonlinear_arith)
                        requires
                            0 <= position.y < h,
                            1 <= w,
                            w * h <= i32::MAX,
                    ;
                }
                let idx = self.ecs.map.xy_idx(position.x, position.y);
                if self.ecs.map.visible_tiles[idx] {
                    list.push((position, renderable));
                }
            }
            e = e + 1;
        }
        list
    }
}


/// The stages of a run of the systems, in the order they come: fields of
/// view, then the monsters, then map indexing, melee and damage at once.
#[derive(Clone, Copy, PartialEq, Eq, Structural, Debug)]
pub enum SystemsPhase {
    Visibility,
    Monsters,
    Finished,
}

/// How far a run of the systems has got: its stage, and the next entity that
/// stage looks at.
#[derive(Clone, Copy, PartialEq, Eq, Structural, Debug)]
pub struct SystemsRun {
    pub phase: SystemsPhase,
    pub next: Entity,
}

/// What a run of the systems needs done next.
pub enum SystemsRequest {
    /// The field of view of `entity`, seen from `origin` as far as `range`,
    /// is to be computed and installed with `VisibilitySystem::update`.
    FieldOfView { entity: Entity, origin: Point, range: i32 },
    /// Monster `entity` is to carry out `plan` with `MonsterAI::act`, given the
    /// path it seeks when the plan is to seek one.
    MonsterTurn { entity: Entity, plan: MonsterPlan },
    /// The run is over; these are the attacks that were resolved.
    Done { events: Vec<MeleeEvent> },
    /// The run stopped: an attack aimed at an entity without combat stats or
    /// name, or attack or damage arithmetic left the `i32` range.
    Failed,
}

impl SystemsRun {
    /// A run that has not started.
    pub fn new() -> (run: SystemsRun)
        ensures
            run == (SystemsRun { phase: SystemsPhase::Visibility, next: 0 }),
    {
        SystemsRun { phase: SystemsPhase::Visibility, next: 0 }
    }
}

/// No entity from `from` up to `to` needs its view recomputed.
pub open spec fn no_view_pending(w: World, from: int, to: int) -> bool {
    forall|j: int| from <= j < to ==> !#[trigger] needs_view(w, j)
}

/// No entity from `from` up to `to` has anything to do as a monster.
pub open spec fn no_monster_acting(w: World, from: int, to: int) -> bool {
    forall|j: int| from <= j < to ==> #[trigger] spec_plan(w, j) == MonsterPlan::Stay
}

/// The entity the monster stage looks at first, when the run has reached it.
pub open spec fn monster_scan_start(w: World, run: SystemsRun) -> Option<int> {
    if run.phase == SystemsPhase::Visibility {
        if no_view_pending(w, run.next as int, w.len()) { Some(0) } else { None }
    } else if run.phase == SystemsPhase::Monsters {
        Some(run.next as int)
    } else {
        None
    }
}

/// Every declared attack can be resolved.
pub open spec fn melee_resolvable(w: World) -> bool {
    forall|e: int| 0 <= e < w.len() ==> #[trigger] attack_resolvable(w, e)
}

/// Every recorded hit can be applied.
pub open spec fn damage_applicable(w: World) -> bool {
    forall|e: int| 0 <= e < w.len() ==> #[trigger] damage_fits(w, e)
}

/// What one call of `next_request` does. It asks for the field of view of
/// the next entity that needs one; once there is none, for the turn of the
/// next monster that has something to do; once there is none, it rebuilds the
/// map's layers, resolves the attacks and applies the damage, stopping with
/// `Failed` when the attacks or the damage cannot be resolved. The world only
/// changes in that last step.
pub open spec fn systems_stepped(old: World, run: SystemsRun, new: World, run2: SystemsRun, req: SystemsRequest) -> bool {
    let n = old.len();
    match req {
        SystemsRequest::FieldOfView { entity, origin, range } => {
            &&& run.phase == SystemsPhase::Visibility
            &&& run.next <= entity < n
            &&& no_view_pending(old, run.next as int, entity as int)
            &&& needs_view(old, entity as int)
            &&& origin == Point { x: old.positions@[entity as int]->0.x, y: old.positions@[entity as int]->0.y }
            &&& range == old.viewsheds@[entity as int]->0.range
            &&& new == old
            &&& run2 == SystemsRun { phase: SystemsPhase::Visibility, next: (entity + 1) as Entity }
        },
        SystemsRequest::MonsterTurn { entity, plan } => {
            &&& monster_scan_start(old, run) is Some
            &&& monster_scan_start(old, run)->0 <= entity < n
            &&& no_monster_acting(old, monster_scan_start(old, run)->0, entity as int)
            &&& plan == spec_plan(old, entity as int)
            &&& plan != MonsterPlan::Stay
            &&& new == old
            &&& run2 == SystemsRun { phase: SystemsPhase::Monsters, next: (entity + 1) as Entity }
        },
        SystemsRequest::Done { events } => {
            &&& monster_scan_start(old, run) is Some
            &&& no_monster_acting(old, monster_scan_start(old, run)->0, n)
            &&& run2.phase == SystemsPhase::Finished
            &&& exists|indexed: World, fought: World| {
                &&& #[trigger] map_indexed(old, indexed)
                &&& melee_resolvable(indexed)
                &&& #[trigger] attacks_resolved(indexed, fought, events@)
                &&& damage_applicable(fought)
                &&& damage_dealt(fought, new)
            }
        },
        SystemsRequest::Failed => {
            &&& monster_scan_start(old, run) is Some
            &&& no_monster_acting(old, monster_scan_start(old, run)->0, n)
            &&& run2.phase == SystemsPhase::Finished
            &&& exists|indexed: World| {
                &&& #[trigger] map_indexed(old, indexed)
                &&& {
                    ||| (!melee_resolvable(indexed) && new == indexed)
                    ||| (melee_resolvable(indexed) && !damage_applicable(new) && exists|events: Seq<MeleeEvent>|
                        #[trigger] attacks_resolved(indexed, new, events))
                }
            }
        },
    }
}

impl State {
    /// Advances a run of the systems to the next thing it needs done, as
    /// `systems_stepped` says.
    pub fn next_request(&mut self, run: &mut SystemsRun) -> (request: SystemsRequest)
        requires
            old(self).ecs.wf(),
            old(run).phase != SystemsPhase::Finished,
        ensures
            final(self).ecs.wf(),
            systems_stepped(old(self).ecs, *old(run), final(self).ecs, *final(run), request),
    {
        let n = self.ecs.entity_count();
        if run.phase == SystemsPhase::Visibility {
            let visibility = VisibilitySystem;
            let mut e = run.next;
            while e < n
                invariant
                    self.ecs.wf(),
                    self.ecs == old(self).ecs,
                    *run == *old(run),
                    run.phase == SystemsPhase::Visibility,
                    n == self.ecs.len(),
                    run.next <= e,
                    no_view_pending(self.ecs, run.next as int, e as int),
                decreases n - e,
            {
                if let Some((origin, range)) = visibility.pending(&self.ecs, e) {
                    run.next = e + 1;
                    return SystemsRequest::FieldOfView { entity: e, origin, range };
                }
                e = e + 1;
            }
            run.phase = SystemsPhase::Monsters;
            run.next = 0;
        }
        let ghost start = run.next as int;
        let monster_ai = MonsterAI;
        let mut e = run.next;
        while e < n
            invariant
                self.ecs.wf(),
                self.ecs == old(self).ecs,
                run.phase == SystemsPhase::Monsters,
                start == run.next,
                monster_scan_start(old(self).ecs, *old(run)) == Some(start),
                n == self.ecs.len(),
                run.next <= e,
                no_monster_acting(self.ecs, start, e as int),
            decreases n - e,
        {
            let plan = monster_ai.plan(&self.ecs, e);
            if plan != MonsterPlan::Stay {
                run.next = e + 1;
                return SystemsRequest::MonsterTurn { entity: e, plan };
            }
            e = e + 1;
        }
        run.phase = SystemsPhase::Finished;
        MapIndexingSystem.run(&mut self.ecs);
        let ghost indexed = self.ecs;
        if !MeleeCombatSystem::resolvable(&self.ecs) {
            assert(map_indexed(old(self).ecs, indexed));
            return SystemsRequest::Failed;
        }
        let events = MeleeCombatSystem.run(&mut self.ecs);
        let ghost fought = self.ecs;
        if !DamageSystem::applicable(&self.ecs) {
            assert(map_indexed(old(self).ecs, indexed));
            assert(attacks_resolved(indexed, fought, events@));
            return SystemsRequest::Failed;
        }
        DamageSystem.run(&mut self.ecs);
        assert(map_indexed(old(self).ecs, indexed));
        assert(attacks_resolved(indexed, fought, events@));
        let ghost seen_events = events@;
        let request = SystemsRequest::Done { events };
        assert(request matches SystemsRequest::Done { events } && events@ == seen_events);
        request
    }
}

/// Over a turn that starts with no hits recorded, resolving the attacks and
/// then applying the damage takes from every fighter exactly the sum of the
/// hits it took that turn; a fighter no one hurt keeps its stats.
pub proof fn lemma_turn_damage(a: World, b: World, c: World, events: Seq<MeleeEvent>, t: int)
    requires
        forall|j: int| 0 <= j < a.len() ==> #[trigger] a.damage_takers@[j] is None,
        attacks_resolved(a, b, events),
        damage_dealt(b, c),
        0 <= t < a.len(),
        a.combat_stats@[t] is Some,
    ensures
        c.combat_stats@[t] == if hits_on(a, t, a.len()).len() > 0 {
            Some(
                CombatStats {
                    hp: (a.combat_stats@[t]->0.hp - total(hits_on(a, t, a.len()))) as i32,
                    ..a.combat_stats@[t]->0
                },
            )
        } else {
            a.combat_stats@[t]
        },
{
    let hits = hits_on(a, t, a.len());
    assert(a.damage_takers@[t] is None);
    assert(recorded_damage(b.damage_takers@[t]) == recorded_damage(a.damage_takers@[t]) + hits);
    assert(recorded_damage(b.damage_takers@[t]) =~= hits);
}

/// Exactly the entities in the player's current view are drawn: every pair
/// listed among the first `k` entities is the position and look of one of
/// them whose cell is visible now, and every such entity with a position and
/// a look on a visible cell is listed. Cells only remembered do not count.
pub proof fn lemma_drawn_exactly_in_view(w: World, k: int)
    requires
        w.wf(),
        0 <= k <= w.len(),
    ensures
        forall|j: int|
            0 <= j < drawn_before(w, k).len() ==> {
                let (p, r) = #[trigger] drawn_before(w, k)[j];
                &&& w.map.visible_tiles@[idx_of(w.map.width as int, p.x as int, p.y as int)]
                &&& exists|e: int|
                    0 <= e < k && #[trigger] w.positions@[e] == Some(p) && w.renderables@[e] == Some(r)
            },
        forall|e: int|
            0 <= e < k && (#[trigger] w.positions@[e]) is Some && w.renderables@[e] is Some
                && w.map.visible_tiles@[idx_of(w.map.width as int, w.positions@[e]->0.x as int, w.positions@[e]->0.y as int)]
                ==> exists|j: int|
                0 <= j < drawn_before(w, k).len() && #[trigger] drawn_before(w, k)[j] == (
                    w.positions@[e]->0,
                    w.renderables@[e]->0,
                ),
    decreases k,
{
    if k > 0 {
        lemma_drawn_exactly_in_view(w, k - 1);
        let prev = drawn_before(w, k - 1);
        let cur = drawn_before(w, k);
        assert forall|j: int| 0 <= j < cur.len() implies {
            let (p, r) = #[trigger] cur[j];
            &&& w.map.visible_tiles@[idx_of(w.map.width as int, p.x as int, p.y as int)]
            &&& exists|e: int| 0 <= e < k && #[trigger] w.positions@[e] == Some(p) && w.renderables@[e] == Some(r)
        } by {
            if j < prev.len() {
                assert(cur[j] == prev[j]);
                let (p, r) = prev[j];
                let e = choose|e: int| 0 <= e < k - 1 && #[trigger] w.positions@[e] == Some(p) && w.renderables@[e] == Some(r);
                assert(0 <= e < k && w.positions@[e] == Some(p) && w.renderables@[e] == Some(r));
            } else {
                let e = k - 1;
                assert(w.positions@[e] == Some(cur[j].0) && w.renderables@[e] == Some(cur[j].1));
            }
        }
        assert forall|e: int|
            0 <= e < k && (#[trigger] w.positions@[e]) is Some && w.renderables@[e] is Some
                && w.map.visible_tiles@[idx_of(w.map.width as int, w.positions@[e]->0.x as int, w.positions@[e]->0.y as int)]
            implies exists|j: int|
            0 <= j < cur.len() && #[trigger] cur[j] == (w.positions@[e]->0, w.renderables@[e]->0) by {
            if e < k - 1 {
                let j = choose|j: int| 0 <= j < prev.len() && #[trigger] prev[j] == (w.positions@[e]->0, w.renderables@[e]->0);
                assert(cur[j] == prev[j]);
            } else {
                assert(cur[prev.len() as int] == (w.positions@[e]->0, w.renderables@[e]->0));
            }
        }
    }
}

} // verus!
