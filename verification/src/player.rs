use vstd::prelude::*;
use crate::components::{CombatStats, DamageDealer, Entity, Position};
use crate::map::idx_of;
use crate::state::RunState;
use crate::world::World;

verus! {

/// The player's position, kept as a resource so that systems need not look
/// the player entity up.
#[derive(Clone, Copy, PartialEq, Eq, Structural, Debug)]
pub struct PlayerPosition {
    pub x: i32,
    pub y: i32,
}

/// The keys the game reacts to; any other key is `Other`.
#[derive(Clone, Copy, PartialEq, Eq, Structural, Debug)]
pub enum Key {
    Left,
    Right,
    Up,
    Down,
    Numpad1,
    Numpad2,
    Numpad3,
    Numpad4,
    Numpad6,
    Numpad7,
    Numpad8,
    Numpad9,
    H,
    J,
    K,
    L,
    Y,
    U,
    N,
    B,
    Other,
}

/// The step a key asks for: arrows, the number pad and the vi keys move in the
/// eight directions; other keys ask for nothing.
pub open spec fn key_delta(key: Key) -> Option<(i32, i32)> {
    match key {
        Key::Left | Key::Numpad4 | Key::H => Some((-1i32, 0i32)),
        Key::Right | Key::Numpad6 | Key::L => Some((1i32, 0i32)),
        Key::Up | Key::Numpad8 | Key::K => Some((0i32, -1i32)),
        Key::Down | Key::Numpad2 | Key::J => Some((0i32, 1i32)),
        Key::Numpad9 | Key::Y => Some((1i32, -1i32)),
        Key::Numpad7 | Key::U => Some((-1i32, -1i32)),
        Key::Numpad3 | Key::N => Some((1i32, 1i32)),
        Key::Numpad1 | Key::B => Some((-1i32, 1i32)),
        Key::Other => None,
    }
}

/// `v` brought into `lo..=hi`.
pub open spec fn clamp(v: int, lo: int, hi: int) -> int {
    if v < lo { lo } else if v > hi { hi } else { v }
}

/// The first entity of `list`, from position `k` on, that has combat stats.
pub open spec fn first_fighter(list: Seq<Entity>, stats: Seq<Option<CombatStats>>, k: int) -> Option<Entity>
    decreases list.len() - k,
{
    if k < 0 || k >= list.len() {
        None
    } else if stats[list[k] as int] is Some {
        Some(list[k])
    } else {
        first_fighter(list, stats, k + 1)
    }
}

/// Index of the cell the player would step onto (negative or past the last
/// cell when the step leaves the grid).
pub open spec fn move_target(w: World, dx: int, dy: int) -> int {
    idx_of(w.map.width as int, w.player_position.x + dx, w.player_position.y + dy)
}

/// All but the damage dealers are those of `other`.
pub open spec fn same_but_dealers(a: World, b: World) -> bool {
    &&& a.map == b.map
    &&& a.positions == b.positions
    &&& a.renderables == b.renderables
    &&& a.viewsheds == b.viewsheds
    &&& a.chasings == b.chasings
    &&& a.players == b.players
    &&& a.monsters == b.monsters
    &&& a.names == b.names
    &&& a.tile_blockings == b.tile_blockings
    &&& a.combat_stats == b.combat_stats
    &&& a.damage_takers == b.damage_takers
    &&& a.player_entity == b.player_entity
    &&& a.player_position == b.player_position
    &&& a.run_state == b.run_state
    &&& a.damage_dealers@.len() == b.damage_dealers@.len()
}

/// All but the positions, the viewsheds and the player position are those of
/// `other`.
pub open spec fn same_but_movement(a: World, b: World) -> bool {
    &&& a.map == b.map
    &&& a.renderables == b.renderables
    &&& a.chasings == b.chasings
    &&& a.players == b.players
    &&& a.monsters == b.monsters
    &&& a.names == b.names
    &&& a.tile_blockings == b.tile_blockings
    &&& a.combat_stats == b.combat_stats
    &&& a.damage_dealers == b.damage_dealers
    &&& a.damage_takers == b.damage_takers
    &&& a.player_entity == b.player_entity
    &&& a.run_state == b.run_state
    &&& a.positions@.len() == b.positions@.len()
    &&& a.viewsheds@.len() == b.viewsheds@.len()
}

/// What a step of `(dx, dy)` does to the world. The player needs a viewshed
/// to act. A step off the grid does nothing. When an entity with combat stats
/// stands on the target cell, the first such one becomes the target of the
/// player's attack and the player stays put. Otherwise the player moves there
/// unless the cell is blocked, with its coordinates kept on the console; its
/// view must then be recomputed and the player position resource follows it.
pub open spec fn player_stepped(old: World, new: World, dx: int, dy: int) -> bool {
    let e = old.player_entity as int;
    let d = move_target(old, dx, dy);
    if old.viewsheds@[e] is None || d < 0 || d >= old.map.size() {
        new == old
    } else {
        match first_fighter(old.map.tile_contents@[d]@, old.combat_stats@, 0) {
            Some(t) => {
                &&& same_but_dealers(new, old)
                &&& new.damage_dealers@ == old.damage_dealers@.update(e, Some(DamageDealer { target: t }))
            },
            None => if old.map.blocked_tiles@[d] {
                new == old
            } else {
                let nx = clamp(old.player_position.x + dx, 0, 79);
                let ny = clamp(old.player_position.y + dy, 0, 49);
                &&& same_but_movement(new, old)
                &&& new.positions@ == old.positions@.update(e, Some(Position { x: nx as i32, y: ny as i32 }))
                &&& new.player_position == PlayerPosition { x: nx as i32, y: ny as i32 }
                &&& forall|j: int| 0 <= j < new.viewsheds@.len() && j != e ==> #[trigger] new.viewsheds@[j] == old.viewsheds@[j]
                &&& new.viewsheds@[e] is Some
                &&& new.viewsheds@[e]->0.dirty
                &&& new.viewsheds@[e]->0.range == old.viewsheds@[e]->0.range
                &&& new.viewsheds@[e]->0.visible_tiles == old.viewsheds@[e]->0.visible_tiles
            },
        }
    }
}

/// Steps the player by `(delta_x, delta_y)` as `player_stepped` says; the turn
/// then passes to the monsters.
fn try_move_player(delta_x: i32, delta_y: i32, ecs: &mut World) -> (next: RunState)
    requires
        old(ecs).wf(),
        -1 <= delta_x <= 1,
        -1 <= delta_y <= 1,
    ensures
        next == RunState::PlayerTurn,
        player_stepped(*old(ecs), *final(ecs), delta_x as int, delta_y as int),
        final(ecs).wf(),
{
    let e = ecs.player_entity;
    if ecs.viewsheds[e].is_none() {
        return RunState::PlayerTurn;
    }
    let ghost w = ecs.map.width as int;
    let ghost h = ecs.map.height as int;
    let x = ecs.player_position.x + delta_x;
    let y = ecs.player_position.y + delta_y;
    proof {
        assert(-w <= y * w <= h * w && h * w + w == (h + 1) * w) by (nonlinear_arith)
            requires
                -1 <= y <= h,
                1 <= w,
        ;
    }
    let destination_idx = y * ecs.map.width + x;
    if destination_idx < 0 || destination_idx >= ecs.map.width * ecs.map.height {
        return RunState::PlayerTurn;
    }
    let d = destination_idx as usize;
    let mut k: usize = 0;
    while k < ecs.map.tile_contents[d].len()
        invariant
            ecs.wf(),
            *ecs == *old(ecs),
            e == ecs.player_entity,
            ecs.viewsheds@[e as int] is Some,
            d as int == move_target(*old(ecs), delta_x as int, delta_y as int),
            x == ecs.player_position.x + delta_x,
            y == ecs.player_position.y + delta_y,
            0 <= d < ecs.map.size(),
            0 <= k <= ecs.map.tile_contents@[d as int]@.len(),
            first_fighter(ecs.map.tile_contents@[d as int]@, ecs.combat_stats@, 0) == first_fighter(
                ecs.map.tile_contents@[d as int]@,
                ecs.combat_stats@,
                k as int,
            ),
        decreases ecs.map.tile_contents@[d as int]@.len() - k,
    {
        let potential_target = ecs.map.tile_contents[d][k];
        if ecs.combat_stats[potential_target].is_some() {
            ecs.damage_dealers.set(e, Some(DamageDealer { target: potential_target }));
            return RunState::PlayerTurn;
        }
        k = k + 1;
    }
    if !ecs.map.blocked_tiles[d] {
        let nx = if x < 0 { 0 } else if x > 79 { 79 } else { x };
        let ny = if y < 0 { 0 } else if y > 49 { 49 } else { y };
        ecs.positions.set(e, Some(Position { x: nx, y: ny }));
        let mut viewshed = ecs.viewsheds[e].take().unwrap();
        viewshed.dirty = true;
        ecs.viewsheds.set(e, Some(viewshed));
        ecs.player_position.x = nx;
        ecs.player_position.y = ny;
    }
    RunState::PlayerTurn
}

/// Reacts to the key pressed this frame, if any: a movement key steps the
/// player as `player_stepped` says and hands the turn on; no key, or a key the
/// game does not use, leaves the world as it is and keeps waiting.
pub fn handle_player_input(ecs: &mut World, key: Option<Key>) -> (next: RunState)
    requires
        old(ecs).wf(),
    ensures
        final(ecs).wf(),
        match key {
            Some(k) => match key_delta(k) {
                Some(d) => next == RunState::PlayerTurn && player_stepped(*old(ecs), *final(ecs), d.0 as int, d.1 as int),
                None => next == RunState::AwaitingInput && *final(ecs) == *old(ecs),
            },
            None => next == RunState::AwaitingInput && *final(ecs) == *old(ecs),
        },
{
    match key {
        None => RunState::AwaitingInput,
        Some(key) => match key {
            Key::Left | Key::Numpad4 | Key::H => try_move_player(-1, 0, ecs),
            Key::Right | Key::Numpad6 | Key::L => try_move_player(1, 0, ecs),
            Key::Up | Key::Numpad8 | Key::K => try_move_player(0, -1, ecs),
            Key::Down | Key::Numpad2 | Key::J => try_move_player(0, 1, ecs),
            Key::Numpad9 | Key::Y => try_move_player(1, -1, ecs),
            Key::Numpad7 | Key::U => try_move_player(-1, -1, ecs),
            Key::Numpad3 | Key::N => try_move_player(1, 1, ecs),
            Key::Numpad1 | Key::B => try_move_player(-1, 1, ecs),
            Key::Other => RunState::AwaitingInput,
        },
    }
}


/// A player step either declares an attack or moves the player, never both:
/// when the step changes the declared attacks, the player stays where it was.
pub proof fn lemma_attack_or_move(old: World, new: World, dx: int, dy: int)
    requires
        old.wf(),
        player_stepped(old, new, dx, dy),
    ensures
        new.damage_dealers != old.damage_dealers ==> new.positions == old.positions && new.player_position
            == old.player_position,
        new.positions != old.positions ==> new.damage_dealers == old.damage_dealers,
{
}

/// A player step keeps the player position resource on the player entity:
/// whatever the step, afterwards the player's position is the one the
/// resource records.
pub proof fn lemma_step_keeps_player_position(old: World, new: World, dx: int, dy: int)
    requires
        old.wf(),
        player_stepped(old, new, dx, dy),
    ensures
        new.player_entity == old.player_entity,
        new.positions@[new.player_entity as int] == Some(
            Position { x: new.player_position.x, y: new.player_position.y },
        ),
{
}

/// The movement keys: the arrow keys, the number pad and the vi keys name
/// the same eight steps, with rows growing downwards. Down (like `2` and `J`)
/// steps one row down and Up (like `8` and `K`) one row up, Left and Right
/// one column; opposite keys give opposite steps, every step moves to a
/// neighbouring cell, and only the keys the game does not use give none.
pub proof fn lemma_movement_keys()
    ensures
        key_delta(Key::Down) == Some((0i32, 1i32)),
        key_delta(Key::Up) == Some((0i32, -1i32)),
        key_delta(Key::Left) == Some((-1i32, 0i32)),
        key_delta(Key::Right) == Some((1i32, 0i32)),
        key_delta(Key::Numpad2) == key_delta(Key::Down) && key_delta(Key::J) == key_delta(Key::Down),
        key_delta(Key::Numpad8) == key_delta(Key::Up) && key_delta(Key::K) == key_delta(Key::Up),
        key_delta(Key::Numpad4) == key_delta(Key::Left) && key_delta(Key::H) == key_delta(Key::Left),
        key_delta(Key::Numpad6) == key_delta(Key::Right) && key_delta(Key::L) == key_delta(Key::Right),
        key_delta(Key::Numpad9) == Some((1i32, -1i32)) && key_delta(Key::Y) == key_delta(Key::Numpad9),
        key_delta(Key::Numpad7) == Some((-1i32, -1i32)) && key_delta(Key::U) == key_delta(Key::Numpad7),
        key_delta(Key::Numpad3) == Some((1i32, 1i32)) && key_delta(Key::N) == key_delta(Key::Numpad3),
        key_delta(Key::Numpad1) == Some((-1i32, 1i32)) && key_delta(Key::B) == key_delta(Key::Numpad1),
        ({
            let (ux, uy) = key_delta(Key::Up).unwrap();
            let (dx, dy) = key_delta(Key::Down).unwrap();
            ux == -dx && uy == -dy
        }),
        ({
            let (lx, ly) = key_delta(Key::Left).unwrap();
            let (rx, ry) = key_delta(Key::Right).unwrap();
            lx == -rx && ly == -ry
        }),
        forall|k: Key|
            #[trigger] key_delta(k) is Some ==> {
                let (dx, dy) = key_delta(k).unwrap();
                -1 <= dx <= 1 && -1 <= dy <= 1 && !(dx == 0 && dy == 0)
            },
        forall|k: Key| #[trigger] key_delta(k) is None <==> k == Key::Other,
{
}

/// A step that moves the player moves it by exactly `(dx, dy)`, kept within
/// the console: each coordinate changes by the step's amount whenever the
/// result stays within the console's 80 x 50 cells, and the player never
/// leaves them.
pub proof fn lemma_step_moves_by_delta(old: World, new: World, dx: int, dy: int)
    requires
        old.wf(),
        player_stepped(old, new, dx, dy),
        new.player_position != old.player_position,
    ensures
        0 <= old.player_position.x + dx <= 79 ==> new.player_position.x == old.player_position.x + dx,
        0 <= old.player_position.y + dy <= 49 ==> new.player_position.y == old.player_position.y + dy,
        0 <= new.player_position.x <= 79,
        0 <= new.player_position.y <= 49,
{
}

} // verus!
