use vstd::prelude::*;
use crate::components::{
    Chasing, CombatStats, DamageDealer, DamageTaker, Entity, Monster, Name, NamedColor, Player, Position, Renderable,
    TileBlocking, Viewshed,
};
use crate::map::{GameMap, lemma_center_inside};
use crate::player::PlayerPosition;
use crate::random;
use crate::spawner::{MonsterKind, cp437, decimal, glyph_code};
use crate::state::RunState;

verus! {

/// Width of the console the game is drawn on; player moves are clamped to it.
pub const SCREEN_WIDTH: i32 = 80;
/// Height of the console the game is drawn on; player moves are clamped to it.
pub const SCREEN_HEIGHT: i32 = 50;

/// The game's entities and resources. Entity `e` owns the `e`-th slot of each
/// component storage; an empty slot means the entity lacks that component.
/// The resources are the map, the player's entity and position, and the run
/// state.
pub struct World {
    pub map: GameMap,
    pub positions: Vec<Option<Position>>,
    pub renderables: Vec<Option<Renderable>>,
    pub viewsheds: Vec<Option<Viewshed>>,
    pub chasings: Vec<Option<Chasing>>,
    pub players: Vec<Option<Player>>,
    pub monsters: Vec<Option<Monster>>,
    pub names: Vec<Option<Name>>,
    pub tile_blockings: Vec<Option<TileBlocking>>,
    pub combat_stats: Vec<Option<CombatStats>>,
    pub damage_dealers: Vec<Option<DamageDealer>>,
    pub damage_takers: Vec<Option<DamageTaker>>,
    pub player_entity: Entity,
    pub player_position: PlayerPosition,
    pub run_state: RunState,
}

impl World {
    /// Number of entity slots.
    pub open spec fn len(self) -> int {
        self.positions@.len() as int
    }

    /// Every storage has one slot per entity.
    pub open spec fn storages_aligned(self) -> bool {
        let n = self.len();
        &&& self.renderables@.len() == n
        &&& self.viewsheds@.len() == n
        &&& self.chasings@.len() == n
        &&& self.players@.len() == n
        &&& self.monsters@.len() == n
        &&& self.names@.len() == n
        &&& self.tile_blockings@.len() == n
        &&& self.combat_stats@.len() == n
        &&& self.damage_dealers@.len() == n
        &&& self.damage_takers@.len() == n
    }

    /// Entity `e` is live: it has a slot and holds some component (a deleted
    /// entity holds none).
    pub open spec fn alive(self, e: int) -> bool {
        0 <= e < self.len() && !vacant(self, e)
    }

    /// The entity `e` has a position inside the map.
    pub open spec fn placed(self, e: int) -> bool {
        &&& self.positions@[e] is Some
        &&& self.map.in_bounds(self.positions@[e]->0.x as int, self.positions@[e]->0.y as int)
    }

    /// The invariant every operation keeps: the map is well formed and at
    /// least as large as the console, and a step off its last row still has an
    /// index that fits an `i32`; the storages are aligned; the player entity
    /// is the one entity marked `Player`, is no monster, and has a position,
    /// which the `player_position` resource mirrors; every position lies on
    /// the map; the entities listed in cells and aimed at by attacks exist;
    /// and the cells in view are among the cells revealed.
    pub open spec fn wf(self) -> bool {
        let n = self.len();
        &&& self.map.wf()
        &&& SCREEN_WIDTH <= self.map.width
        &&& SCREEN_HEIGHT <= self.map.height
        &&& (self.map.height + 1) * self.map.width <= i32::MAX
        &&& self.storages_aligned()
        &&& 0 <= self.player_entity < n
        &&& forall|e: int| 0 <= e < n ==> ((#[trigger] self.players@[e]) is Some <==> e == self.player_entity)
        &&& self.monsters@[self.player_entity as int] is None
        &&& self.positions@[self.player_entity as int] == Some(
            Position { x: self.player_position.x, y: self.player_position.y },
        )
        &&& forall|e: int| 0 <= e < n && (#[trigger] self.positions@[e]) is Some ==> self.placed(e)
        &&& forall|i: int, k: int|
            0 <= i < self.map.size() && 0 <= k < self.map.tile_contents@[i]@.len()
                ==> #[trigger] self.map.tile_contents@[i]@[k] < n
        &&& forall|e: int|
            0 <= e < n && (#[trigger] self.damage_dealers@[e]) is Some ==> self.damage_dealers@[e]->0.target < n
        &&& forall|i: int| 0 <= i < self.map.size() && #[trigger] self.map.visible_tiles@[i] ==> self.map.revealed_tiles@[i]
    }
}


/// Entity `e` has no component left.
pub open spec fn vacant(w: World, e: int) -> bool {
    &&& w.positions@[e] is None
    &&& w.renderables@[e] is None
    &&& w.viewsheds@[e] is None
    &&& w.chasings@[e] is None
    &&& w.players@[e] is None
    &&& w.monsters@[e] is None
    &&& w.names@[e] is None
    &&& w.tile_blockings@[e] is None
    &&& w.combat_stats@[e] is None
    &&& w.damage_dealers@[e] is None
    &&& w.damage_takers@[e] is None
}

/// Entity `e`'s slots in `a` and `b` hold the same components.
pub open spec fn same_slot(a: World, b: World, e: int) -> bool {
    &&& a.positions@[e] == b.positions@[e]
    &&& a.renderables@[e] == b.renderables@[e]
    &&& a.viewsheds@[e] == b.viewsheds@[e]
    &&& a.chasings@[e] == b.chasings@[e]
    &&& a.players@[e] == b.players@[e]
    &&& a.monsters@[e] == b.monsters@[e]
    &&& a.names@[e] == b.names@[e]
    &&& a.tile_blockings@[e] == b.tile_blockings@[e]
    &&& a.combat_stats@[e] == b.combat_stats@[e]
    &&& a.damage_dealers@[e] == b.damage_dealers@[e]
    &&& a.damage_takers@[e] == b.damage_takers@[e]
}

/// `a` and `b` hold the same components and the same resources but the map.
pub open spec fn same_but_map(a: World, b: World) -> bool {
    &&& a.positions == b.positions
    &&& a.renderables == b.renderables
    &&& a.viewsheds == b.viewsheds
    &&& a.chasings == b.chasings
    &&& a.players == b.players
    &&& a.monsters == b.monsters
    &&& a.names == b.names
    &&& a.tile_blockings == b.tile_blockings
    &&& a.combat_stats == b.combat_stats
    &&& a.damage_dealers == b.damage_dealers
    &&& a.damage_takers == b.damage_takers
    &&& a.player_entity == b.player_entity
    &&& a.player_position == b.player_position
    &&& a.run_state == b.run_state
}

/// `a` and `b` hold the same resources and the same components but for the
/// damage-taker storage, which has as many slots in both.
pub open spec fn same_but_takers(a: World, b: World) -> bool {
    &&& a.map == b.map
    &&& a.positions == b.positions
    &&& a.renderables == b.renderables
    &&& a.viewsheds == b.viewsheds
    &&& a.chasings == b.chasings
    &&& a.players == b.players
    &&& a.monsters == b.monsters
    &&& a.names == b.names
    &&& a.tile_blockings == b.tile_blockings
    &&& a.combat_stats == b.combat_stats
    &&& a.damage_dealers == b.damage_dealers
    &&& a.player_entity == b.player_entity
    &&& a.player_position == b.player_position
    &&& a.run_state == b.run_state
    &&& a.damage_takers@.len() == b.damage_takers@.len()
}

/// `a` and `b` have the same resources and the same number of entity slots.
pub open spec fn same_resources(a: World, b: World) -> bool {
    &&& a.map == b.map
    &&& a.player_entity == b.player_entity
    &&& a.player_position == b.player_position
    &&& a.run_state == b.run_state
    &&& a.len() == b.len()
    &&& a.storages_aligned() == b.storages_aligned()
}

impl World {
    /// Number of entity slots.
    pub fn entity_count(&self) -> (n: usize)
        ensures
            n == self.len(),
    {
        self.positions.len()
    }

    /// Removes every component of entity `e`.
    pub fn delete_entity(&mut self, e: Entity)
        requires
            old(self).wf(),
            e < old(self).len(),
            e != old(self).player_entity,
        ensures
            final(self).wf(),
            same_resources(*final(self), *old(self)),
            vacant(*final(self), e as int),
            forall|j: int| 0 <= j < old(self).len() && j != e ==> #[trigger] same_slot(*final(self), *old(self), j),
    {
        self.positions.set(e, None);
        self.renderables.set(e, None);
        self.viewsheds.set(e, None);
        self.chasings.set(e, None);
        self.players.set(e, None);
        self.monsters.set(e, None);
        self.names.set(e, None);
        self.tile_blockings.set(e, None);
        self.combat_stats.set(e, None);
        self.damage_dealers.set(e, None);
        self.damage_takers.set(e, None);
    }
}


/// Entity `e` is the player as it enters the game at `(x, y)`: drawn as a
/// yellow `@`, seeing eight cells far with its view still to compute, named
/// `Player`, with 30 of 30 hit points, defense 2 and power 5.
pub open spec fn player_spawned(w: World, e: int, x: i32, y: i32) -> bool {
    &&& w.positions@[e] == Some(Position { x, y })
    &&& w.renderables@[e] == Some(
        Renderable { glyph: cp437('@'), fg: NamedColor::Yellow, bg: NamedColor::Black },
    )
    &&& w.viewsheds@[e] is Some
    &&& w.viewsheds@[e]->0.visible_tiles@.len() == 0
    &&& w.viewsheds@[e]->0.range == 8
    &&& w.viewsheds@[e]->0.dirty
    &&& w.chasings@[e] is None
    &&& w.players@[e] == Some(Player)
    &&& w.monsters@[e] is None
    &&& w.names@[e] is Some
    &&& w.names@[e].unwrap().text() == seq!['P', 'l', 'a', 'y', 'e', 'r']
    &&& w.tile_blockings@[e] is None
    &&& w.combat_stats@[e] == Some(CombatStats { max_hp: 30, hp: 30, defense: 2, power: 5 })
    &&& w.damage_dealers@[e] is None
    &&& w.damage_takers@[e] is None
}

/// Entity `e` is the `i`-th monster, of kind `kind`, as it enters the game at
/// `(x, y)`: drawn as a red letter, seeing eight cells far with its view still
/// to compute, chasing nothing, named after its kind and number, blocking its
/// cell, with 16 of 16 hit points, defense 1 and power 4.
pub open spec fn monster_spawned_as(w: World, e: int, x: i32, y: i32, i: nat, kind: MonsterKind) -> bool {
    &&& w.positions@[e] == Some(Position { x, y })
    &&& w.renderables@[e] == Some(
        Renderable { glyph: cp437(kind.spec_symbol()), fg: NamedColor::Red, bg: NamedColor::Black },
    )
    &&& w.viewsheds@[e] is Some
    &&& w.viewsheds@[e]->0.visible_tiles@.len() == 0
    &&& w.viewsheds@[e]->0.range == 8
    &&& w.viewsheds@[e]->0.dirty
    &&& w.chasings@[e] == Some(Chasing { target: None })
    &&& w.players@[e] is None
    &&& w.monsters@[e] == Some(Monster)
    &&& w.names@[e] is Some
    &&& w.names@[e].unwrap().text() == kind.spec_title() + decimal(i)
    &&& w.tile_blockings@[e] == Some(TileBlocking)
    &&& w.combat_stats@[e] == Some(CombatStats { max_hp: 16, hp: 16, defense: 1, power: 4 })
    &&& w.damage_dealers@[e] is None
    &&& w.damage_takers@[e] is None
}

/// `world` is `map` peopled for a new game: entity 0 is the player at the
/// centre of the first room, entity `k` for every later room `k` a monster at
/// its centre, numbered `k - 1`, and the game has not started yet.
pub open spec fn populated(map: GameMap, world: World) -> bool {
    &&& world.map == map
    &&& world.run_state == RunState::PreRun
    &&& world.len() == map.rooms@.len()
    &&& world.player_entity == 0
    &&& player_spawned(world, 0, map.rooms@[0].spec_center().0 as i32, map.rooms@[0].spec_center().1 as i32)
    &&& forall|k: int|
        1 <= k < map.rooms@.len() ==> {
            let c = (#[trigger] map.rooms@[k]).spec_center();
            ||| monster_spawned_as(world, k, c.0 as i32, c.1 as i32, (k - 1) as nat, MonsterKind::Goblin)
            ||| monster_spawned_as(world, k, c.0 as i32, c.1 as i32, (k - 1) as nat, MonsterKind::Orc)
        }
}

/// `world` is `map` peopled for a new game with the die rolls `rolls`: as
/// `populated` says, where the monster in room `k` is of the kind that
/// `rolls[k - 1]` gives.
pub open spec fn populated_with(map: GameMap, world: World, rolls: Seq<i32>) -> bool {
    &&& world.map == map
    &&& world.run_state == RunState::PreRun
    &&& world.len() == map.rooms@.len()
    &&& world.player_entity == 0
    &&& player_spawned(world, 0, map.rooms@[0].spec_center().0 as i32, map.rooms@[0].spec_center().1 as i32)
    &&& forall|k: int|
        1 <= k < map.rooms@.len() ==> {
            let c = (#[trigger] map.rooms@[k]).spec_center();
            monster_spawned_as(world, k, c.0 as i32, c.1 as i32, (k - 1) as nat, MonsterKind::spec_from_roll(rolls[k - 1]))
        }
}

impl World {
    /// Adds an entity with the given components and returns it.
    fn create_entity(
        &mut self,
        position: Position,
        renderable: Renderable,
        viewshed: Viewshed,
        chasing: Option<Chasing>,
        player: Option<Player>,
        monster: Option<Monster>,
        name: Name,
        tile_blocking: Option<TileBlocking>,
        stats: CombatStats,
    ) -> (e: Entity)
        requires
            old(self).storages_aligned(),
            old(self).len() < usize::MAX,
        ensures
            e == old(self).len(),
            final(self).storages_aligned(),
            final(self).len() == old(self).len() + 1,
            final(self).map == old(self).map,
            final(self).player_entity == old(self).player_entity,
            final(self).player_position == old(self).player_position,
            final(self).run_state == old(self).run_state,
            forall|j: int| 0 <= j < old(self).len() ==> #[trigger] same_slot(*final(self), *old(self), j),
            final(self).positions@[e as int] == Some(position),
            final(self).renderables@[e as int] == Some(renderable),
            final(self).viewsheds@[e as int] == Some(viewshed),
            final(self).chasings@[e as int] == chasing,
            final(self).players@[e as int] == player,
            final(self).monsters@[e as int] == monster,
            final(self).names@[e as int] == Some(name),
            final(self).tile_blockings@[e as int] == tile_blocking,
            final(self).combat_stats@[e as int] == Some(stats),
            final(self).damage_dealers@[e as int] is None,
            final(self).damage_takers@[e as int] is None,
    {
        let e = self.positions.len();
        self.positions.push(Some(position));
        self.renderables.push(Some(renderable));
        self.viewsheds.push(Some(viewshed));
        self.chasings.push(chasing);
        self.players.push(player);
        self.monsters.push(monster);
        self.names.push(Some(name));
        self.tile_blockings.push(tile_blocking);
        self.combat_stats.push(Some(stats));
        self.damage_dealers.push(None);
        self.damage_takers.push(None);
        proof {
            assert forall|j: int| 0 <= j < old(self).len() implies #[trigger] same_slot(*self, *old(self), j) by {
            }
        }
        e
    }

    /// Peoples a freshly generated level with the die rolls `rolls`, one per
    /// room after the first: the player stands at the centre of the first
    /// room, and one monster at the centre of every other room `k`, a goblin
    /// when `rolls[k - 1]` is one and an orc otherwise, numbered from zero.
    /// The game starts before the first turn.
    pub fn populate(map: GameMap, rolls: &Vec<i32>) -> (world: World)
        requires
            map.wf(),
            map.layout_ok(),
            map.layers_clear(),
            map.rooms@.len() >= 1,
            rolls@.len() == map.rooms@.len() - 1,
            SCREEN_WIDTH <= map.width,
            SCREEN_HEIGHT <= map.height,
            (map.height + 1) * map.width <= i32::MAX,
        ensures
            world.wf(),
            populated_with(map, world, rolls@),
    {
        let ghost w = map.width as int;
        let ghost h = map.height as int;
        proof {
            assert(w * 8 <= w * h && 8 * h <= w * h) by (nonlinear_arith)
                requires
                    80 <= w,
                    50 <= h,
            ;
            assert forall|k: int| 0 <= k < map.rooms@.len() implies {
                let c = (#[trigger] map.rooms@[k]).spec_center();
                1 <= c.0 <= w - 2 && 1 <= c.1 <= h - 2
            } by {
                lemma_center_inside(map.rooms@[k], w, h);
            }
        }
        let (px, py) = map.rooms[0].center();
        let mut world = World {
            map,
            positions: Vec::new(),
            renderables: Vec::new(),
            viewsheds: Vec::new(),
            chasings: Vec::new(),
            players: Vec::new(),
            monsters: Vec::new(),
            names: Vec::new(),
            tile_blockings: Vec::new(),
            combat_stats: Vec::new(),
            damage_dealers: Vec::new(),
            damage_takers: Vec::new(),
            player_entity: 0,
            player_position: PlayerPosition { x: px, y: py },
            run_state: RunState::PreRun,
        };
        proof {
            reveal_strlit("Player");
        }
        let player = world.create_entity(
            Position { x: px, y: py },
            Renderable { glyph: glyph_code('@'), fg: NamedColor::Yellow, bg: NamedColor::Black },
            Viewshed { visible_tiles: Vec::new(), range: 8, dirty: true },
            None,
            Some(Player),
            None,
            Name(String::from_str("Player")),
            None,
            CombatStats { max_hp: 30, hp: 30, defense: 2, power: 5 },
        );
        proof {
            assert(world.names@[0].unwrap().text() =~= seq!['P', 'l', 'a', 'y', 'e', 'r']);
        }
        let count = world.map.rooms.len();
        let mut k: usize = 1;
        while k < count
            invariant
                world.storages_aligned(),
                world.map == map,
                map.wf(),
                map.layout_ok(),
                w == map.width,
                h == map.height,
                w * 8 <= w * h,
                8 * h <= w * h,
                count == map.rooms@.len(),
                rolls@.len() == count - 1,
                1 <= k <= count,
                world.len() == k,
                player == 0,
                world.player_entity == 0,
                world.player_position == (PlayerPosition { x: px, y: py }),
                world.run_state == RunState::PreRun,
                px == map.rooms@[0].spec_center().0,
                py == map.rooms@[0].spec_center().1,
                player_spawned(world, 0, px, py),
                forall|j: int| 0 <= j < map.rooms@.len() ==> {
                    let c = (#[trigger] map.rooms@[j]).spec_center();
                    1 <= c.0 <= w - 2 && 1 <= c.1 <= h - 2
                },
                forall|j: int|
                    1 <= j < k ==> {
                        let c = (#[trigger] map.rooms@[j]).spec_center();
                        monster_spawned_as(world, j, c.0 as i32, c.1 as i32, (j - 1) as nat, MonsterKind::spec_from_roll(rolls@[j - 1]))
                    },
            decreases count - k,
        {
            let (x, y) = world.map.rooms[k].center();
            let kind = MonsterKind::from_roll(rolls[k - 1]);
            let symbol = match kind {
                MonsterKind::Goblin => 'g',
                MonsterKind::Orc => 'o',
            };
            let ghost prev = world;
            let e = world.create_entity(
                Position { x, y },
                Renderable { glyph: glyph_code(symbol), fg: NamedColor::Red, bg: NamedColor::Black },
                Viewshed { visible_tiles: Vec::new(), range: 8, dirty: true },
                Some(Chasing { target: None }),
                None,
                Some(Monster),
                Name(kind.name(k - 1)),
                Some(TileBlocking),
                CombatStats { max_hp: 16, hp: 16, defense: 1, power: 4 },
            );
            proof {
                assert(same_slot(world, prev, 0));
                assert forall|j: int| 1 <= j < k + 1 implies {
                    let c = (#[trigger] map.rooms@[j]).spec_center();
                    monster_spawned_as(world, j, c.0 as i32, c.1 as i32, (j - 1) as nat, MonsterKind::spec_from_roll(rolls@[j - 1]))
                } by {
                    if j < k {
                        assert(same_slot(world, prev, j));
                    } else {
                        assert(kind == MonsterKind::spec_from_roll(rolls@[j - 1]));
                    }
                }
            }
            k = k + 1;
        }
        proof {
            let n = world.len();
            assert forall|e: int| 0 <= e < n && (#[trigger] world.positions@[e]) is Some implies world.placed(e) by {
                if e > 0 {
                    let c = map.rooms@[e].spec_center();
                    assert(monster_spawned_as(world, e, c.0 as i32, c.1 as i32, (e - 1) as nat, MonsterKind::spec_from_roll(rolls@[e - 1])));
                }
            }
            assert forall|e: int| 0 <= e < n implies ((#[trigger] world.players@[e]) is Some <==> e == world.player_entity) by {
                if e > 0 {
                    let c = map.rooms@[e].spec_center();
                    assert(monster_spawned_as(world, e, c.0 as i32, c.1 as i32, (e - 1) as nat, MonsterKind::spec_from_roll(rolls@[e - 1])));
                }
            }
            assert forall|e: int| 0 <= e < n && (#[trigger] world.damage_dealers@[e]) is Some implies world.damage_dealers@[e]->0.target < n by {
                if e > 0 {
                    let c = map.rooms@[e].spec_center();
                    assert(monster_spawned_as(world, e, c.0 as i32, c.1 as i32, (e - 1) as nat, MonsterKind::spec_from_roll(rolls@[e - 1])));
                }
            }
        }
        world
    }

    /// Peoples a freshly generated level: one two-sided die is rolled for
    /// every room after the first, and `populate` places the player and the
    /// monsters by those rolls. Each monster is a goblin or an orc, as its
    /// roll decided.
    pub fn new(map: GameMap) -> (world: World)
        requires
            map.wf(),
            map.layout_ok(),
            map.layers_clear(),
            map.rooms@.len() >= 1,
            SCREEN_WIDTH <= map.width,
            SCREEN_HEIGHT <= map.height,
            (map.height + 1) * map.width <= i32::MAX,
        ensures
            world.wf(),
            populated(map, world),
    {
        let mut rng = random::new_rng();
        let count = map.rooms.len();
        let mut rolls: Vec<i32> = Vec::new();
        let mut k: usize = 1;
        while k < count
            invariant
                count == map.rooms@.len(),
                1 <= k <= count,
                rolls@.len() == k - 1,
            decreases count - k,
        {
            rolls.push(random::roll_dice(&mut rng, 1, 2));
            k = k + 1;
        }
        let world = World::populate(map, &rolls);
        proof {
            assert forall|k: int| 1 <= k < map.rooms@.len() implies {
                let c = (#[trigger] map.rooms@[k]).spec_center();
                ||| monster_spawned_as(world, k, c.0 as i32, c.1 as i32, (k - 1) as nat, MonsterKind::Goblin)
                ||| monster_spawned_as(world, k, c.0 as i32, c.1 as i32, (k - 1) as nat, MonsterKind::Orc)
            } by {
                let c = map.rooms@[k].spec_center();
                assert(monster_spawned_as(world, k, c.0 as i32, c.1 as i32, (k - 1) as nat,
                    MonsterKind::spec_from_roll(rolls@[k - 1])));
            }
        }
        world
    }
}

} // verus!
