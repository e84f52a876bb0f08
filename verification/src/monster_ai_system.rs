use vstd::prelude::*;
use crate::components::{DamageDealer, Entity, Point, Position, Viewshed};
use crate::map::{idx_of, lemma_idx_bounds};
use crate::state::RunState;
use crate::world::World;

verus! {

/// Moves the monsters on their turn: a monster next to the player attacks it,
/// a monster that sees the player walks one step towards it along a path found
/// by A* search (which is computed outside and handed in).
pub struct MonsterAI;

/// What a monster does this turn.
#[derive(Clone, Copy, PartialEq, Eq, Structural, Debug)]
pub enum MonsterPlan {
    /// Hit the player.
    Attack,
    /// Walk towards the player along a path from cell `start` to cell `goal`.
    SeekPath { start: usize, goal: usize },
    /// Nothing.
    Stay,
}

/// A path found by A* search: whether it reaches the goal, and the cells it
/// goes through, the starting cell first.
pub struct NavPath {
    pub success: bool,
    pub steps: Vec<usize>,
}

/// Two points are neighbours (or the same point): their Euclidean distance is
/// below one and a half, that is, its square is at most two.
pub open spec fn within_reach(ax: int, ay: int, bx: int, by: int) -> bool {
    (ax - bx) * (ax - bx) + (ay - by) * (ay - by) <= 2
}

/// `p` is among the points of `s`.
pub open spec fn sees_point(s: Seq<Point>, p: Point) -> bool {
    exists|k: int| 0 <= k < s.len() && s[k] == p
}

/// Entity `e` is a monster with a position and a viewshed.
pub open spec fn is_active_monster(w: World, e: int) -> bool {
    &&& 0 <= e < w.len()
    &&& w.positions@[e] is Some
    &&& w.viewsheds@[e] is Some
    &&& w.monsters@[e] is Some
}

/// What monster `e` does: only on the monsters' turn, it attacks the player
/// when within reach, else seeks a path to the player when the player is in
/// its view, else stays.
pub open spec fn spec_plan(w: World, e: int) -> MonsterPlan {
    if w.run_state != RunState::MonsterTurn || !is_active_monster(w, e) {
        MonsterPlan::Stay
    } else {
        let p = w.positions@[e]->0;
        let pp = w.player_position;
        if within_reach(p.x as int, p.y as int, pp.x as int, pp.y as int) {
            MonsterPlan::Attack
        } else if sees_point(w.viewsheds@[e]->0.visible_tiles@, Point { x: pp.x, y: pp.y }) {
            MonsterPlan::SeekPath {
                start: idx_of(w.map.width as int, p.x as int, p.y as int) as usize,
                goal: idx_of(w.map.width as int, pp.x as int, pp.y as int) as usize,
            }
        } else {
            MonsterPlan::Stay
        }
    }
}

/// The path a monster seeking the player was handed has a next step, and
/// that step is a cell of the map.
pub open spec fn path_usable(w: World, e: int, path: Option<NavPath>) -> bool {
    match path {
        Some(p) => spec_plan(w, e) is SeekPath && p.success && p.steps@.len() > 1,
        None => false,
    }
}

/// What monster `e` doing its plan makes of the world. An attack declares
/// the player as the monster's target. A usable path moves the monster to its
/// second cell: the cell left is no longer blocked, the cell entered is, and
/// the monster's view must be recomputed. Anything else changes nothing.
pub open spec fn monster_acted(old: World, new: World, e: int, path: Option<NavPath>) -> bool {
    match spec_plan(old, e) {
        MonsterPlan::Attack => {
            &&& new.damage_dealers@ == old.damage_dealers@.update(e, Some(DamageDealer { target: old.player_entity }))
            &&& new.map == old.map
            &&& new.positions == old.positions
            &&& new.viewsheds == old.viewsheds
            &&& new.player_position == old.player_position
        },
        MonsterPlan::SeekPath { start, goal } => if path_usable(old, e, path) {
            let s = path->0.steps@[1] as int;
            let w = old.map.width as int;
            &&& new.damage_dealers == old.damage_dealers
            &&& new.positions@ == old.positions@.update(e, Some(Position { x: (s % w) as i32, y: (s / w) as i32 }))
            &&& new.map.blocked_tiles@ == old.map.blocked_tiles@.update(start as int, false).update(s, true)
            &&& new.map.tiles == old.map.tiles
            &&& new.map.rooms == old.map.rooms
            &&& new.map.width == old.map.width
            &&& new.map.height == old.map.height
            &&& new.map.revealed_tiles == old.map.revealed_tiles
            &&& new.map.visible_tiles == old.map.visible_tiles
            &&& new.map.tile_contents == old.map.tile_contents
            &&& new.viewsheds@.len() == old.viewsheds@.len()
            &&& forall|j: int| 0 <= j < old.len() && j != e ==> #[trigger] new.viewsheds@[j] == old.viewsheds@[j]
            &&& new.viewsheds@[e] is Some
            &&& new.viewsheds@[e]->0.dirty
            &&& new.viewsheds@[e]->0.range == old.viewsheds@[e]->0.range
            &&& new.viewsheds@[e]->0.visible_tiles == old.viewsheds@[e]->0.visible_tiles
            &&& new.player_position == old.player_position
        } else {
            new == old
        },
        MonsterPlan::Stay => new == old,
    }
}

/// The squared distance is at most two exactly when both coordinate
/// differences are at most one.
proof fn lemma_within_reach(dx: int, dy: int)
    ensures
        (dx * dx + dy * dy <= 2) == (-1 <= dx <= 1 && -1 <= dy <= 1),
{
    if -1 <= dx <= 1 && -1 <= dy <= 1 {
        assert(dx * dx <= 1 && dy * dy <= 1) by (nonlinear_arith)
            requires
                -1 <= dx <= 1,
                -1 <= dy <= 1,
        ;
    } else {
        assert(dx * dx + dy * dy >= 4) by (nonlinear_arith)
            requires
                !(-1 <= dx <= 1 && -1 <= dy <= 1),
        ;
    }
}

impl MonsterAI {
    /// What monster `e` does this turn, as `spec_plan` says.
    #[verifier::loop_isolation(false)]
    pub fn plan(&self, ecs: &World, e: Entity) -> (plan: MonsterPlan)
        requires
            ecs.wf(),
        ensures
            plan == spec_plan(*ecs, e as int),
    {
        if ecs.run_state != RunState::MonsterTurn || e >= ecs.positions.len() {
            return MonsterPlan::Stay;
        }
        if ecs.monsters[e].is_none() {
            return MonsterPlan::Stay;
        }
        match (ecs.positions[e], ecs.viewsheds[e].as_ref()) {
            (Some(position), Some(viewshed)) => {
                assert(ecs.placed(e as int));
                let player = ecs.player_position;
                assert(ecs.placed(ecs.player_entity as int));
                let dx = position.x - player.x;
                let dy = position.y - player.y;
                proof {
                    lemma_within_reach(dx as int, dy as int);
                }
                if -1 <= dx && dx <= 1 && -1 <= dy && dy <= 1 {
                    return MonsterPlan::Attack;
                }
                let target = Point { x: player.x, y: player.y };
                let mut k: usize = 0;
                while k < viewshed.visible_tiles.len()
                    invariant
                        0 <= k <= viewshed.visible_tiles@.len(),
                        forall|j: int| 0 <= j < k ==> viewshed.visible_tiles@[j] != target,
                    decreases viewshed.visible_tiles@.len() - k,
                {
                    if viewshed.visible_tiles[k] == target {
                        let ghost w = ecs.map.width as int;
                        let ghost h = ecs.map.height as int;
                        proof {
                            lemma_idx_bounds(w, h, position.x as int, position.y as int);
                            lemma_idx_bounds(w, h, player.x as int, player.y as int);
                            assert(position.y * w <= i32::MAX && player.y * w <= i32::MAX) by (nonlinear_arith)
                                requires
                                    0 <= position.y < h,
                                    0 <= player.y < h,
                                    1 <= w,
                                    w * h <= i32::MAX,
                            ;
                        }
                        let start = ecs.map.xy_idx(position.x, position.y);
                        let goal = ecs.map.xy_idx(player.x, player.y);
                        return MonsterPlan::SeekPath { start, goal };
                    }
                    k = k + 1;
                }
                MonsterPlan::Stay
            },
            _ => MonsterPlan::Stay,
        }
    }

    /// Monster `e` carries out its plan, as `monster_acted` says; `path` is the
    /// path found for it when it seeks the player.
    pub fn act(&mut self, ecs: &mut World, e: Entity, path: Option<NavPath>)
        requires
            old(ecs).wf(),
            path_usable(*old(ecs), e as int, path) ==> path->0.steps@[1] < old(ecs).map.size(),
        ensures
            final(ecs).wf(),
            monster_acted(*old(ecs), *final(ecs), e as int, path),
            final(ecs).run_state == old(ecs).run_state,
            final(ecs).player_entity == old(ecs).player_entity,
            final(ecs).combat_stats == old(ecs).combat_stats,
            final(ecs).names == old(ecs).names,
            final(ecs).players == old(ecs).players,
            final(ecs).monsters == old(ecs).monsters,
            final(ecs).tile_blockings == old(ecs).tile_blockings,
            final(ecs).damage_takers == old(ecs).damage_takers,
            final(ecs).renderables == old(ecs).renderables,
            final(ecs).chasings == old(ecs).chasings,
    {
        let plan = self.plan(ecs, e);
        proof {
            if is_active_monster(*old(ecs), e as int) {
                let p = old(ecs).positions@[e as int]->0;
                assert(old(ecs).placed(e as int));
                lemma_idx_bounds(old(ecs).map.width as int, old(ecs).map.height as int, p.x as int, p.y as int);
            }
        }
        match plan {
            MonsterPlan::Attack => {
                let target = ecs.player_entity;
                ecs.damage_dealers.set(e, Some(DamageDealer { target }));
            },
            MonsterPlan::SeekPath { start, goal: _ } => {
                if let Some(nav) = path {
                    if nav.success && nav.steps.len() > 1 {
                        let step = nav.steps[1];
                        let width = ecs.map.width as usize;
                        proof {
                            let s = step as int;
                            let w = width as int;
                            let h = ecs.map.height as int;
                            assert(0 <= s % w < w && 0 <= s / w < h) by (nonlinear_arith)
                                requires
                                    0 <= s < w * h,
                                    1 <= w,
                            ;
                        }
                        let nx = (step % width) as i32;
                        let ny = (step / width) as i32;
                        ecs.map.blocked_tiles.set(start, false);
                        ecs.positions.set(e, Some(Position { x: nx, y: ny }));
                        ecs.map.blocked_tiles.set(step, true);
                        let viewshed = ecs.viewsheds[e].take().unwrap();
                        ecs.viewsheds.set(
                            e,
                            Some(Viewshed { visible_tiles: viewshed.visible_tiles, range: viewshed.range, dirty: true }),
                        );
                    }
                }
            },
            MonsterPlan::Stay => {},
        }
    }
}


/// Monsters only act on their own turn: at any other time a monster's action
/// leaves the world as it was.
pub proof fn lemma_monsters_wait_their_turn(old: World, new: World, e: int, path: Option<NavPath>)
    requires
        old.run_state != RunState::MonsterTurn,
        monster_acted(old, new, e, path),
    ensures
        new == old,
{
}

/// A monster either attacks or moves in a turn, never both: when its action
/// changes the declared attacks, no entity moves, and when it moves, the
/// declared attacks stay as they were.
pub proof fn lemma_monster_attack_or_move(old: World, new: World, e: int, path: Option<NavPath>)
    requires
        monster_acted(old, new, e, path),
    ensures
        new.damage_dealers != old.damage_dealers ==> new.positions == old.positions,
        new.positions != old.positions ==> new.damage_dealers == old.damage_dealers,
{
}

/// A monster attacks exactly when the player is its neighbour: on the
/// monsters' turn, a monster with a position and a viewshed plans an attack
/// if and only if both coordinate differences to the player are at most one
/// (the distance is below one and a half). A monster two cells away never
/// attacks, and a monster seeks a path only towards a player it is not next
/// to and whose point is in its view.
pub proof fn lemma_attack_exactly_when_adjacent(w: World, e: int)
    ensures
        spec_plan(w, e) == MonsterPlan::Attack <==> {
            &&& w.run_state == RunState::MonsterTurn
            &&& 0 <= e < w.len()
            &&& w.positions@[e] is Some
            &&& w.viewsheds@[e] is Some
            &&& w.monsters@[e] is Some
            &&& -1 <= w.positions@[e]->0.x - w.player_position.x <= 1
            &&& -1 <= w.positions@[e]->0.y - w.player_position.y <= 1
        },
        spec_plan(w, e) is SeekPath ==> {
            &&& !(-1 <= w.positions@[e]->0.x - w.player_position.x <= 1 && -1 <= w.positions@[e]->0.y
                - w.player_position.y <= 1)
            &&& exists|k: int|
                0 <= k < w.viewsheds@[e]->0.visible_tiles@.len() && #[trigger] w.viewsheds@[e]->0.visible_tiles@[k]
                    == Point { x: w.player_position.x, y: w.player_position.y }
        },
{
    if is_active_monster(w, e) {
        let p = w.positions@[e]->0;
        lemma_within_reach(p.x - w.player_position.x, p.y - w.player_position.y);
    }
}

/// A monster that moves steps onto the path's next cell: its new position is
/// the map cell whose index is that step, the cell it left is free unless it
/// is the same cell, and the cell it entered is blocked.
pub proof fn lemma_monster_steps_onto_the_path(old: World, new: World, e: int, path: Option<NavPath>)
    requires
        old.wf(),
        monster_acted(old, new, e, path),
        path_usable(old, e, path),
        path->0.steps@[1] < old.map.size(),
    ensures
        new.positions@[e] is Some,
        old.map.in_bounds(new.positions@[e]->0.x as int, new.positions@[e]->0.y as int),
        idx_of(old.map.width as int, new.positions@[e]->0.x as int, new.positions@[e]->0.y as int)
            == path->0.steps@[1] as int,
        new.map.blocked_tiles@[path->0.steps@[1] as int],
        ({
            let left = idx_of(old.map.width as int, old.positions@[e]->0.x as int, old.positions@[e]->0.y as int);
            left != path->0.steps@[1] as int ==> !new.map.blocked_tiles@[left]
        }),
{
    let w = old.map.width as int;
    let h = old.map.height as int;
    let s = path->0.steps@[1] as int;
    let p = old.positions@[e]->0;
    assert(old.placed(e));
    lemma_idx_bounds(w, h, p.x as int, p.y as int);
    vstd::arithmetic::div_mod::lemma_fundamental_div_mod(s, w);
    assert(0 <= s % w < w && 0 <= s / w < h) by (nonlinear_arith)
        requires
            0 <= s < w * h,
            1 <= w,
            s == w * (s / w) + s % w,
            0 <= s % w < w,
    ;
    assert(idx_of(w, s % w, s / w) == s) by (nonlinear_arith)
        requires
            s == w * (s / w) + s % w,
    ;
}

} // verus!
