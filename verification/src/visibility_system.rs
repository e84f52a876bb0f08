use vstd::prelude::*;
use crate::components::{Entity, Point, Viewshed};
use crate::map::{GameMap, idx_of, lemma_idx_bounds};
use crate::world::{World, same_but_map};

verus! {

/// Keeps every entity's field of view, and the player's view of the map, up
/// to date. The field of view itself is computed outside, by shadowcasting;
/// this system asks for it and installs it.
pub struct VisibilitySystem;

/// The points of `s` before `k` that lie on the map, in order.
pub open spec fn points_on_map(m: GameMap, s: Seq<Point>, k: int) -> Seq<Point>
    decreases k,
{
    if k <= 0 || k > s.len() {
        Seq::empty()
    } else if m.in_bounds(s[k - 1].x as int, s[k - 1].y as int) {
        points_on_map(m, s, k - 1).push(s[k - 1])
    } else {
        points_on_map(m, s, k - 1)
    }
}

/// Index of the cell at point `p`.
pub open spec fn point_cell(m: GameMap, p: Point) -> int {
    idx_of(m.width as int, p.x as int, p.y as int)
}

/// Cell `i` is one of the points of `s`.
pub open spec fn seen(m: GameMap, s: Seq<Point>, i: int) -> bool {
    exists|k: int| 0 <= k < s.len() && point_cell(m, #[trigger] s[k]) == i
}

/// Entity `e` has a position and a viewshed that must be recomputed.
pub open spec fn needs_view(w: World, e: int) -> bool {
    &&& 0 <= e < w.len()
    &&& w.positions@[e] is Some
    &&& w.viewsheds@[e] is Some
    &&& w.viewsheds@[e]->0.dirty
}

/// What installing the field of view `fov` for entity `e` does: its viewshed
/// keeps the points of `fov` that lie on the map and is no longer dirty; when
/// `e` is the player, the cells in view become exactly those points, and they
/// are revealed for good. Nothing happens to an entity whose view is up to
/// date, and nothing else changes.
pub open spec fn view_installed(old: World, new: World, e: int, fov: Seq<Point>) -> bool {
    &&& new.positions == old.positions
    &&& new.renderables == old.renderables
    &&& new.chasings == old.chasings
    &&& new.players == old.players
    &&& new.monsters == old.monsters
    &&& new.names == old.names
    &&& new.tile_blockings == old.tile_blockings
    &&& new.combat_stats == old.combat_stats
    &&& new.damage_dealers == old.damage_dealers
    &&& new.damage_takers == old.damage_takers
    &&& new.player_entity == old.player_entity
    &&& new.player_position == old.player_position
    &&& new.run_state == old.run_state
    &&& if !needs_view(old, e) {
        new == old
    } else {
        let kept = points_on_map(old.map, fov, fov.len() as int);
        &&& new.viewsheds@.len() == old.viewsheds@.len()
        &&& forall|j: int| 0 <= j < old.len() && j != e ==> #[trigger] new.viewsheds@[j] == old.viewsheds@[j]
        &&& new.viewsheds@[e] is Some
        &&& new.viewsheds@[e]->0.visible_tiles@ == kept
        &&& new.viewsheds@[e]->0.range == old.viewsheds@[e]->0.range
        &&& !new.viewsheds@[e]->0.dirty
        &&& new.map.tiles == old.map.tiles
        &&& new.map.rooms == old.map.rooms
        &&& new.map.width == old.map.width
        &&& new.map.height == old.map.height
        &&& new.map.blocked_tiles == old.map.blocked_tiles
        &&& new.map.tile_contents == old.map.tile_contents
        &&& if old.players@[e] is Some {
            &&& new.map.visible_tiles@.len() == old.map.visible_tiles@.len()
            &&& new.map.revealed_tiles@.len() == old.map.revealed_tiles@.len()
            &&& forall|i: int| 0 <= i < old.map.size() ==> #[trigger] new.map.visible_tiles@[i] == seen(old.map, kept, i)
            &&& forall|i: int|
                0 <= i < old.map.size() ==> #[trigger] new.map.revealed_tiles@[i] == (old.map.revealed_tiles@[i]
                    || seen(old.map, kept, i))
        } else {
            &&& new.map.visible_tiles == old.map.visible_tiles
            &&& new.map.revealed_tiles == old.map.revealed_tiles
        }
    }
}

impl VisibilitySystem {
    /// Where and how far entity `e` must look, when its view must be
    /// recomputed.
    pub fn pending(&self, ecs: &World, e: Entity) -> (request: Option<(Point, i32)>)
        requires
            ecs.wf(),
        ensures
            match request {
                Some((origin, range)) => {
                    &&& needs_view(*ecs, e as int)
                    &&& origin == Point { x: ecs.positions@[e as int]->0.x, y: ecs.positions@[e as int]->0.y }
                    &&& range == ecs.viewsheds@[e as int]->0.range
                },
                None => !needs_view(*ecs, e as int),
            },
    {
        if e >= ecs.positions.len() {
            return None;
        }
        match (ecs.positions[e], ecs.viewsheds[e].as_ref()) {
            (Some(position), Some(viewshed)) => {
                if viewshed.dirty {
                    Some((Point { x: position.x, y: position.y }, viewshed.range))
                } else {
                    None
                }
            },
            _ => None,
        }
    }

    /// Installs `fov`, the field of view computed for entity `e`, as
    /// `view_installed` says.
    pub fn update(&mut self, ecs: &mut World, e: Entity, fov: Vec<Point>)
        requires
            old(ecs).wf(),
        ensures
            final(ecs).wf(),
            view_installed(*old(ecs), *final(ecs), e as int, fov@),
    {
        if e >= ecs.positions.len() || ecs.positions[e].is_none() || ecs.viewsheds[e].is_none() {
            return;
        }
        if !ecs.viewsheds[e].as_ref().unwrap().dirty {
            return;
        }
        let range = ecs.viewsheds[e].as_ref().unwrap().range;
        let ghost w = ecs.map.width as int;
        let ghost h = ecs.map.height as int;
        let mut visible_tiles: Vec<Point> = Vec::new();
        let mut k: usize = 0;
        while k < fov.len()
            invariant
                0 <= k <= fov@.len(),
                ecs.map == old(ecs).map,
                visible_tiles@ == points_on_map(ecs.map, fov@, k as int),
            decreases fov@.len() - k,
        {
            let point = fov[k];
            if point.x >= 0 && point.x < ecs.map.width && point.y >= 0 && point.y < ecs.map.height {
                visible_tiles.push(point);
            }
            k = k + 1;
        }
        let ghost kept = visible_tiles@;
        proof {
            lemma_points_on_map_inside(ecs.map, fov@, fov@.len() as int);
        }
        if ecs.players[e].is_some() {
            let size = ecs.map.visible_tiles.len();
            let mut i: usize = 0;
            while i < size
                invariant
                    ecs.map.wf(),
                    old(ecs).wf(),
                    same_but_map(*ecs, *old(ecs)),
                    size == ecs.map.size(),
                    0 <= i <= size,
                    ecs.map.tiles == old(ecs).map.tiles,
                    ecs.map.rooms == old(ecs).map.rooms,
                    ecs.map.width == old(ecs).map.width,
                    ecs.map.height == old(ecs).map.height,
                    ecs.map.blocked_tiles == old(ecs).map.blocked_tiles,
                    ecs.map.tile_contents == old(ecs).map.tile_contents,
                    ecs.map.revealed_tiles == old(ecs).map.revealed_tiles,
                    forall|j: int| 0 <= j < i ==> !(#[trigger] ecs.map.visible_tiles@[j]),
                decreases size - i,
            {
                ecs.map.visible_tiles.set(i, false);
                i = i + 1;
            }
            let mut k: usize = 0;
            while k < visible_tiles.len()
                invariant
                    ecs.map.wf(),
                    old(ecs).wf(),
                    same_but_map(*ecs, *old(ecs)),
                    w == ecs.map.width,
                    h == ecs.map.height,
                    ecs.map.tiles == old(ecs).map.tiles,
                    ecs.map.rooms == old(ecs).map.rooms,
                    ecs.map.width == old(ecs).map.width,
                    ecs.map.height == old(ecs).map.height,
                    ecs.map.blocked_tiles == old(ecs).map.blocked_tiles,
                    ecs.map.tile_contents == old(ecs).map.tile_contents,
                    0 <= k <= kept.len(),
                    visible_tiles@ == kept,
                    forall|m: int| 0 <= m < kept.len() ==> on_map(old(ecs).map, #[trigger] kept[m]),
                    forall|j: int|
                        0 <= j < ecs.map.size() ==> #[trigger] ecs.map.visible_tiles@[j] == seen(old(ecs).map, kept.take(k as int), j),
                    forall|j: int|
                        0 <= j < ecs.map.size() ==> #[trigger] ecs.map.revealed_tiles@[j] == (old(ecs).map.revealed_tiles@[j]
                            || seen(old(ecs).map, kept.take(k as int), j)),
                decreases kept.len() - k,
            {
                let point = visible_tiles[k];
                proof {
                    assert(on_map(old(ecs).map, kept[k as int]));
                    lemma_idx_bounds(w, h, point.x as int, point.y as int);
                    assert(point.y * w <= i32::MAX) by (nonlinear_arith)
                        requires
                            0 <= point.y < h,
                            1 <= w,
                            w * h <= i32::MAX,
                    ;
                }
                let idx = ecs.map.xy_idx(point.x, point.y);
                let ghost prev = ecs.map;
                ecs.map.revealed_tiles.set(idx, true);
                ecs.map.visible_tiles.set(idx, true);
                proof {
                    assert forall|j: int| #![trigger ecs.map.visible_tiles@[j]] #![trigger ecs.map.revealed_tiles@[j]]
                        0 <= j < ecs.map.size() implies ecs.map.visible_tiles@[j] == seen(
                        old(ecs).map,
                        kept.take(k + 1),
                        j,
                    ) && ecs.map.revealed_tiles@[j] == (old(ecs).map.revealed_tiles@[j] || seen(
                        old(ecs).map,
                        kept.take(k + 1),
                        j,
                    )) by {
                        assert(prev.visible_tiles@[j] == seen(old(ecs).map, kept.take(k as int), j));
                        assert(prev.revealed_tiles@[j] == (old(ecs).map.revealed_tiles@[j] || seen(
                            old(ecs).map,
                            kept.take(k as int),
                            j,
                        )));
                        if seen(old(ecs).map, kept.take(k + 1), j) {
                            let m = choose|m: int| 0 <= m < k + 1 && point_cell(old(ecs).map, #[trigger] kept.take(k + 1)[m]) == j;
                            if m < k {
                                assert(kept.take(k as int)[m] == kept.take(k + 1)[m]);
                            }
                        }
                        if seen(old(ecs).map, kept.take(k as int), j) {
                            let m = choose|m: int| 0 <= m < k && point_cell(old(ecs).map, #[trigger] kept.take(k as int)[m]) == j;
                            assert(kept.take(k as int)[m] == kept.take(k + 1)[m]);
                        }
                        if j == idx {
                            assert(kept.take(k + 1)[k as int] == point);
                        }
                    }
                }
                k = k + 1;
            }
            proof {
                assert(kept.take(kept.len() as int) =~= kept);
            }
        }
        ecs.viewsheds.set(e, Some(Viewshed { visible_tiles, range, dirty: false }));
    }
}

/// Installing a view only ever reveals more of the map: every cell revealed
/// before stays revealed, and the tiles, the blocking layer and the cell
/// contents stay as they were.
pub proof fn lemma_revealed_only_grows(old: World, new: World, e: int, fov: Seq<Point>)
    requires
        old.wf(),
        view_installed(old, new, e, fov),
    ensures
        new.map.revealed_tiles@.len() == old.map.revealed_tiles@.len(),
        forall|i: int| 0 <= i < old.map.size() && #[trigger] old.map.revealed_tiles@[i] ==> new.map.revealed_tiles@[i],
        new.map.tiles == old.map.tiles,
        new.map.blocked_tiles == old.map.blocked_tiles,
        new.map.tile_contents == old.map.tile_contents,
{
}

/// A view once installed is settled: installing a view for the same entity
/// again, whatever field of view comes with it, changes nothing.
pub proof fn lemma_view_settles(old: World, mid: World, new: World, e: int, first: Seq<Point>, second: Seq<Point>)
    requires
        view_installed(old, mid, e, first),
        view_installed(mid, new, e, second),
    ensures
        new == mid,
        !needs_view(mid, e),
{
}

/// Point `p` lies on the map.
pub open spec fn on_map(m: GameMap, p: Point) -> bool {
    m.in_bounds(p.x as int, p.y as int)
}

/// The points kept by `points_on_map` lie on the map.
proof fn lemma_points_on_map_inside(m: GameMap, s: Seq<Point>, k: int)
    ensures
        forall|j: int| 0 <= j < points_on_map(m, s, k).len() ==> on_map(m, #[trigger] points_on_map(m, s, k)[j]),
    decreases k,
{
    if k > 0 && k <= s.len() {
        lemma_points_on_map_inside(m, s, k - 1);
        let prev = points_on_map(m, s, k - 1);
        assert forall|j: int| 0 <= j < points_on_map(m, s, k).len() implies on_map(m, #[trigger] points_on_map(m, s, k)[j]) by {
            if j < prev.len() {
                assert(points_on_map(m, s, k)[j] == prev[j]);
            }
        }
    }
}

} // verus!
