use vstd::prelude::*;
use crate::components::Entity;
use crate::map::{TileType, idx_of, lemma_idx_bounds};
use crate::world::World;

verus! {

/// Rebuilds the map's blocking and content layers from the entities.
pub struct MapIndexingSystem;

/// Index of the cell entity `e` stands on.
pub open spec fn cell_of(w: World, e: int) -> int {
    idx_of(w.map.width as int, w.positions@[e]->0.x as int, w.positions@[e]->0.y as int)
}

/// Entity `e` stands on cell `i`.
pub open spec fn stands_on(w: World, e: int, i: int) -> bool {
    w.positions@[e] is Some && cell_of(w, e) == i
}

/// The entities before `k` that stand on cell `i`, in entity order.
pub open spec fn entities_at(w: World, i: int, k: int) -> Seq<Entity>
    decreases k,
{
    if k <= 0 {
        Seq::empty()
    } else if stands_on(w, k - 1, i) {
        entities_at(w, i, k - 1).push((k - 1) as Entity)
    } else {
        entities_at(w, i, k - 1)
    }
}

/// Cell `i` is blocked: it is a wall, or an entity marked `TileBlocking`
/// stands on it.
pub open spec fn cell_blocked(w: World, i: int) -> bool {
    ||| w.map.tiles@[i] == TileType::Wall
    ||| exists|e: int| 0 <= e < w.len() && #[trigger] stands_on(w, e, i) && w.tile_blockings@[e] is Some
}

/// What rebuilding the map's layers does: every cell is blocked exactly when
/// `cell_blocked` says, lists exactly the entities standing on it in entity
/// order, and nothing else changes.
pub open spec fn map_indexed(old: World, new: World) -> bool {
    &&& forall|i: int| 0 <= i < old.map.size() ==> #[trigger] new.map.blocked_tiles@[i] == cell_blocked(old, i)
    &&& forall|i: int|
        0 <= i < old.map.size() ==> (#[trigger] new.map.tile_contents@[i])@ == entities_at(old, i, old.len())
    &&& new.map.tiles == old.map.tiles
    &&& new.map.rooms == old.map.rooms
    &&& new.map.width == old.map.width
    &&& new.map.height == old.map.height
    &&& new.map.revealed_tiles == old.map.revealed_tiles
    &&& new.map.visible_tiles == old.map.visible_tiles
    &&& new.map.blocked_tiles@.len() == old.map.blocked_tiles@.len()
    &&& new.map.tile_contents@.len() == old.map.tile_contents@.len()
    &&& new.positions == old.positions
    &&& new.renderables == old.renderables
    &&& new.viewsheds == old.viewsheds
    &&& new.chasings == old.chasings
    &&& new.players == old.players
    &&& new.monsters == old.monsters
    &&& new.names == old.names
    &&& new.tile_blockings == old.tile_blockings
    &&& new.combat_stats == old.combat_stats
    &&& new.damage_dealers == old.damage_dealers
    &&& new.damage_takers == old.damage_takers
    &&& new.player_entity == old.player_entity
    &&& new.player_position == old.player_position
    &&& new.run_state == old.run_state
}

impl MapIndexingSystem {
    /// Blocks the walls and the cells of blocking entities, and lists in each
    /// cell the entities standing on it, in entity order.
    pub fn run(&mut self, ecs: &mut World)
        requires
            old(ecs).wf(),
        ensures
            final(ecs).wf(),
            map_indexed(*old(ecs), *final(ecs)),
    {
        ecs.map.init_blocked_tiles();
        ecs.map.clear_tile_contents();
        let ghost w = ecs.map.width as int;
        let ghost h = ecs.map.height as int;
        let ghost size = ecs.map.size();
        let n = ecs.positions.len();
        let mut e: usize = 0;
        while e < n
            invariant
                ecs.map.wf(),
                n == old(ecs).len(),
                0 <= e <= n,
                w == ecs.map.width,
                h == ecs.map.height,
                size == ecs.map.size(),
                ecs.map.tiles == old(ecs).map.tiles,
                ecs.map.rooms == old(ecs).map.rooms,
                ecs.map.width == old(ecs).map.width,
                ecs.map.height == old(ecs).map.height,
                ecs.map.revealed_tiles == old(ecs).map.revealed_tiles,
                ecs.map.visible_tiles == old(ecs).map.visible_tiles,
                ecs.positions == old(ecs).positions,
                ecs.renderables == old(ecs).renderables,
                ecs.viewsheds == old(ecs).viewsheds,
                ecs.chasings == old(ecs).chasings,
                ecs.players == old(ecs).players,
                ecs.monsters == old(ecs).monsters,
                ecs.names == old(ecs).names,
                ecs.tile_blockings == old(ecs).tile_blockings,
                ecs.combat_stats == old(ecs).combat_stats,
                ecs.damage_dealers == old(ecs).damage_dealers,
                ecs.damage_takers == old(ecs).damage_takers,
                ecs.player_entity == old(ecs).player_entity,
                ecs.player_position == old(ecs).player_position,
                ecs.run_state == old(ecs).run_state,
                old(ecs).wf(),
                forall|i: int|
                    0 <= i < size ==> #[trigger] ecs.map.blocked_tiles@[i] == (ecs.map.tiles@[i] == TileType::Wall || exists|
                        j: int,
                    | 0 <= j < e && #[trigger] stands_on(*old(ecs), j, i) && old(ecs).tile_blockings@[j] is Some),
                forall|i: int| 0 <= i < size ==> (#[trigger] ecs.map.tile_contents@[i])@ == entities_at(*old(ecs), i, e as int),
            decreases n - e,
        {
            let ghost prev = *ecs;
            if let Some(position) = ecs.positions[e] {
                assert(old(ecs).placed(e as int));
                proof {
                    lemma_idx_bounds(w, h, position.x as int, position.y as int);
                    assert(position.y * w <= i32::MAX) by (nonlinear_arith)
                        requires
                            0 <= position.y < h,
                            1 <= w,
                            w * h <= i32::MAX,
                    ;
                }
                let idx = ecs.map.xy_idx(position.x, position.y);
                assert(cell_of(*old(ecs), e as int) == idx);
                if ecs.tile_blockings[e].is_some() {
                    ecs.map.blocked_tiles.set(idx, true);
                }
                ecs.map.tile_contents[idx].push(e);
                proof {
                    assert forall|i: int| 0 <= i < size implies (#[trigger] ecs.map.tile_contents@[i])@ == entities_at(
                        *old(ecs),
                        i,
                        e + 1,
                    ) by {
                        assert(prev.map.tile_contents@[i]@ == entities_at(*old(ecs), i, e as int));
                    }
                    assert forall|i: int| 0 <= i < size implies #[trigger] ecs.map.blocked_tiles@[i] == (ecs.map.tiles@[i]
                        == TileType::Wall || exists|j: int|
                        0 <= j < e + 1 && #[trigger] stands_on(*old(ecs), j, i) && old(ecs).tile_blockings@[j] is Some) by {
                        assert(prev.map.blocked_tiles@[i] == (prev.map.tiles@[i] == TileType::Wall || exists|j: int|
                            0 <= j < e && #[trigger] stands_on(*old(ecs), j, i) && old(ecs).tile_blockings@[j] is Some));
                        if stands_on(*old(ecs), e as int, i) && old(ecs).tile_blockings@[e as int] is Some {
                            assert(i == idx);
                        }
                    }
                }
            } else {
                proof {
                    assert forall|i: int| 0 <= i < size implies (#[trigger] ecs.map.tile_contents@[i])@ == entities_at(
                        *old(ecs),
                        i,
                        e + 1,
                    ) by {
                        assert(prev.map.tile_contents@[i]@ == entities_at(*old(ecs), i, e as int));
                    }
                    assert forall|i: int| 0 <= i < size implies #[trigger] ecs.map.blocked_tiles@[i] == (ecs.map.tiles@[i]
                        == TileType::Wall || exists|j: int|
                        0 <= j < e + 1 && #[trigger] stands_on(*old(ecs), j, i) && old(ecs).tile_blockings@[j] is Some) by {
                        assert(prev.map.blocked_tiles@[i] == (prev.map.tiles@[i] == TileType::Wall || exists|j: int|
                            0 <= j < e && #[trigger] stands_on(*old(ecs), j, i) && old(ecs).tile_blockings@[j] is Some));
                    }
                }
            }
            e = e + 1;
        }
        proof {
            assert forall|i: int, k: int|
                0 <= i < ecs.map.size() && 0 <= k < ecs.map.tile_contents@[i]@.len() implies #[trigger] ecs.map.tile_contents@[i]@[k]
                < ecs.len() by {
                lemma_entities_at_below(*old(ecs), i, n as int, k);
            }
        }
    }
}

/// The entities listed for a cell are entity slots.
proof fn lemma_entities_at_below(w: World, i: int, k: int, m: int)
    requires
        0 <= m < entities_at(w, i, k).len(),
        k <= w.len(),
    ensures
        entities_at(w, i, k)[m] < w.len(),
    decreases k,
{
    if k > 0 {
        if m < entities_at(w, i, k - 1).len() {
            lemma_entities_at_below(w, i, k - 1, m);
        }
    }
}


/// Every entity with a position is listed on the cell it stands on, and an
/// entity is listed on a cell only if it stands there.
pub proof fn lemma_listed_exactly_where_standing(w: World, i: int, k: int, e: int)
    requires
        0 <= e < k,
        k <= usize::MAX,
    ensures
        entities_at(w, i, k).contains(e as Entity) <==> stands_on(w, e, i),
        entities_at(w, i, k).contains(e as Entity) <==> (w.positions@[e] is Some && w.positions@[e]->0.y
            * w.map.width + w.positions@[e]->0.x == i),
    decreases k,
{
    if k - 1 == e {
        if stands_on(w, e, i) {
            assert(entities_at(w, i, k).last() == e as Entity);
        } else {
            lemma_listed_only_before(w, i, k - 1, e);
        }
    } else {
        lemma_listed_exactly_where_standing(w, i, k - 1, e);
        if entities_at(w, i, k - 1).contains(e as Entity) {
            let j = choose|j: int| 0 <= j < entities_at(w, i, k - 1).len() && #[trigger] entities_at(w, i, k - 1)[j] == e as Entity;
            assert(entities_at(w, i, k)[j] == e as Entity);
        }
        if entities_at(w, i, k).contains(e as Entity) {
            let j = choose|j: int| 0 <= j < entities_at(w, i, k).len() && #[trigger] entities_at(w, i, k)[j] == e as Entity;
            if stands_on(w, k - 1, i) && j == entities_at(w, i, k).len() - 1 {
                assert(false);
            }
            assert(entities_at(w, i, k - 1)[j] == e as Entity);
        }
    }
}

/// The entities listed among the first `k` are all below `k`.
proof fn lemma_listed_only_before(w: World, i: int, k: int, e: int)
    requires
        k <= e,
        e <= usize::MAX,
    ensures
        !entities_at(w, i, k).contains(e as Entity),
    decreases k,
{
    if k > 0 {
        lemma_listed_only_before(w, i, k - 1, e);
        if entities_at(w, i, k).contains(e as Entity) {
            let j = choose|j: int| 0 <= j < entities_at(w, i, k).len() && #[trigger] entities_at(w, i, k)[j] == e as Entity;
            if j < entities_at(w, i, k - 1).len() {
                assert(entities_at(w, i, k - 1)[j] == e as Entity);
            }
        }
    }
}

} // verus!
