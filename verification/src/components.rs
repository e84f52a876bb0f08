use vstd::prelude::*;
use crate::world::{World, same_but_takers};

verus! {

/// An entity is named by its slot in the world's component storages.
pub type Entity = usize;

/// The named colours entities are drawn in.
#[derive(Clone, Copy, PartialEq, Eq, Structural, Debug)]
pub enum NamedColor {
    Black,
    Yellow,
    Red,
}

impl NamedColor {
    /// The colour's red, green and blue intensities.
    pub fn rgb(&self) -> (c: (u8, u8, u8))
        ensures
            c == match *self {
                NamedColor::Black => (0u8, 0u8, 0u8),
                NamedColor::Yellow => (255u8, 255u8, 0u8),
                NamedColor::Red => (255u8, 0u8, 0u8),
            },
    {
        match self {
            NamedColor::Black => (0, 0, 0),
            NamedColor::Yellow => (255, 255, 0),
            NamedColor::Red => (255, 0, 0),
        }
    }
}

/// A point of the grid.
#[derive(Clone, Copy, PartialEq, Eq, Structural, Debug)]
pub struct Point {
    pub x: i32,
    pub y: i32,
}

/// Where an entity stands.
#[derive(Clone, Copy, PartialEq, Eq, Structural, Debug)]
pub struct Position {
    pub x: i32,
    pub y: i32,
}

/// How an entity is drawn: a code-page 437 glyph and its colours.
#[derive(Clone, Copy, PartialEq, Eq, Structural, Debug)]
pub struct Renderable {
    pub glyph: u16,
    pub fg: NamedColor,
    pub bg: NamedColor,
}

/// What an entity sees: the cells in view, how far it sees, and whether the
/// view must be computed again (after the entity moved).
pub struct Viewshed {
    pub visible_tiles: Vec<Point>,
    pub range: i32,
    pub dirty: bool,
}

/// The point a monster is heading for, if any.
#[derive(Clone, Copy, PartialEq, Eq, Structural, Debug)]
pub struct Chasing {
    pub target: Option<Point>,
}

/// Marks the entity the keyboard controls.
#[derive(Clone, Copy, PartialEq, Eq, Structural, Debug)]
pub struct Player;

/// Marks the entities the monster AI moves.
#[derive(Clone, Copy, PartialEq, Eq, Structural, Debug)]
pub struct Monster;

/// A display name.
pub struct Name(pub String);

impl Name {
    /// The characters of the name.
    pub open spec fn text(self) -> Seq<char> {
        self.0@
    }
}

/// Marks entities that no other entity may walk through.
#[derive(Clone, Copy, PartialEq, Eq, Structural, Debug)]
pub struct TileBlocking;

/// Hit points and fighting strength.
#[derive(Clone, Copy, PartialEq, Eq, Structural, Debug)]
pub struct CombatStats {
    pub max_hp: i32,
    pub hp: i32,
    pub defense: i32,
    pub power: i32,
}

/// The intent of an entity to hit `target` this turn.
#[derive(Clone, Copy, PartialEq, Eq, Structural, Debug)]
pub struct DamageDealer {
    pub target: Entity,
}

/// The hits an entity takes this turn, in the order they were dealt.
pub struct DamageTaker {
    pub amount: Vec<i32>,
}

/// The damage amounts recorded in a damage-taker slot, the empty sequence
/// when the slot is empty.
pub open spec fn recorded_damage(slot: Option<DamageTaker>) -> Seq<i32> {
    match slot {
        Some(d) => d.amount@,
        None => Seq::empty(),
    }
}

impl DamageTaker {
    /// Records a hit of `amount` on `target`, which must be a live entity:
    /// appended to the hits it already takes this turn, or the first of them.
    /// Nothing else changes.
    pub fn take_damage(ecs: &mut World, target: Entity, amount: i32)
        requires
            old(ecs).wf(),
            old(ecs).alive(target as int),
        ensures
            final(ecs).wf(),
            same_but_takers(*final(ecs), *old(ecs)),
            final(ecs).damage_takers@[target as int] is Some,
            recorded_damage(final(ecs).damage_takers@[target as int]) == recorded_damage(
                old(ecs).damage_takers@[target as int],
            ).push(amount),
            forall|e: int|
                0 <= e < old(ecs).len() && e != target ==> #[trigger] final(ecs).damage_takers@[e]
                    == old(ecs).damage_takers@[e],
    {
        let slot = ecs.damage_takers[target].take();
        match slot {
            Some(mut damage_taker) => {
                damage_taker.amount.push(amount);
                ecs.damage_takers.set(target, Some(damage_taker));
            },
            None => {
                let mut amounts: Vec<i32> = Vec::new();
                amounts.push(amount);
                ecs.damage_takers.set(target, Some(DamageTaker { amount: amounts }));
            },
        }
    }
}

} // verus!
