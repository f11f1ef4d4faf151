//! Authoritative simulation core for a multiplayer snake arena.
//!
//! A shared grid world holds independently identified snakes and a fixed
//! number of fruits. Once per tick the world moves every snake one cell in
//! its pending direction, lets snakes that reach a fruit grow, and then
//! eliminates every snake whose new head left the playable interior or
//! landed on another snake's tail. The wire protocol for the join
//! handshake, direction commands and snapshot framing lives alongside it.

use vstd::prelude::*;

mod fruits;
mod protocol;
mod snakes;
mod world;

pub use fruits::Fruits;
pub use protocol::decode_direction;
pub use protocol::decode_frame_len;
pub use protocol::decode_join;
pub use protocol::encode_direction;
pub use protocol::encode_frame_len;
pub use protocol::encode_join;
pub use protocol::JoinPacket;
pub use protocol::StatePacket;
pub use snakes::Color;
pub use snakes::Direction;
pub use snakes::Snake;
pub use snakes::SnakeID;
pub use snakes::Snakes;
pub use world::tick_sleep_ms;
pub use world::SPAWN_DIRECTION;
pub use world::SPAWN_LENGTH;
pub use world::Point;
pub use world::World;

use crate::snakes::has_id;
use crate::snakes::ids_distinct;
use crate::snakes::Snake as LiveSnake;
use crate::world::dir_lookup;
use crate::world::dirs_has;
use crate::world::dirs_distinct;
use crate::world::in_interior;
use crate::world::update_rel;

verus! {

/// The shared game state: the world, guarded by the session layer for
/// concurrent access. A tick reports the eliminated snakes to the caller,
/// which owns their final bodies.
pub struct GameState {
    pub world: World,
}

impl GameState {
    pub fn new(world: World) -> (r: GameState)
        ensures
            r.world == world,
    {
        GameState { world }
    }

    /// One simulation tick of the world; returns the eliminated snakes,
    /// each with its final body.
    pub fn update(&mut self) -> (hits: Vec<(SnakeID, LiveSnake)>)
        requires
            old(self).world.wf(),
        ensures
            final(self).world.wf(),
            final(self).world.width_spec() == old(self).world.width_spec(),
            final(self).world.height_spec() == old(self).world.height_spec(),
            final(self).world.next_id_spec() == old(self).world.next_id_spec(),
            final(self).world.fruits_seq().len() == old(self).world.fruits_seq().len(),
            ids_distinct(old(self).world.snakes_seq()),
            dirs_distinct(old(self).world.dirs_seq()),
            ids_distinct(hits@),
            update_rel(
                old(self).world.snakes_seq(),
                old(self).world.fruits_seq(),
                old(self).world.dirs_seq(),
                final(self).world.snakes_seq(),
                final(self).world.fruits_seq(),
                final(self).world.dirs_seq(),
                hits@,
                old(self).world.width_spec(),
                old(self).world.height_spec(),
            ),
    {
        self.world.update()
    }

    /// Overwrites the pending direction of a snake with the latest
    /// command received for it.
    pub fn change_dir(&mut self, snake: SnakeID, new_dir: Direction)
        requires
            old(self).world.wf(),
        ensures
            final(self).world.wf(),
            final(self).world.snakes_seq() == old(self).world.snakes_seq(),
            final(self).world.fruits_seq() == old(self).world.fruits_seq(),
            final(self).world.width_spec() == old(self).world.width_spec(),
            final(self).world.height_spec() == old(self).world.height_spec(),
            final(self).world.next_id_spec() == old(self).world.next_id_spec(),
            dirs_has(final(self).world.dirs_seq(), snake),
            dir_lookup(final(self).world.dirs_seq(), snake) == new_dir,
            forall|other: SnakeID|
                other != snake ==> #[trigger] dirs_has(final(self).world.dirs_seq(), other)
                    == dirs_has(old(self).world.dirs_seq(), other),
            forall|other: SnakeID|
                other != snake && dirs_has(final(self).world.dirs_seq(), other)
                    ==> #[trigger] dir_lookup(final(self).world.dirs_seq(), other) == dir_lookup(
                    old(self).world.dirs_seq(),
                    other,
                ),
    {
        self.world.change_dir(snake, new_dir);
    }

    /// Inserts a snake under a fresh, never reused identifier and records
    /// its pending direction.
    pub fn add_snake(&mut self, snake: LiveSnake, dir: Direction) -> (id: SnakeID)
        requires
            old(self).world.wf(),
            snake.wf(),
            in_interior(snake.head, old(self).world.width_spec(), old(self).world.height_spec()),
            old(self).world.next_id_spec() < u32::MAX,
        ensures
            final(self).world.wf(),
            id.value() == old(self).world.next_id_spec(),
            !has_id(old(self).world.snakes_seq(), id),
            final(self).world.snakes_seq() == old(self).world.snakes_seq().push((id, snake)),
            final(self).world.next_id_spec() == old(self).world.next_id_spec() + 1,
            final(self).world.width_spec() == old(self).world.width_spec(),
            final(self).world.height_spec() == old(self).world.height_spec(),
            final(self).world.fruits_seq() == old(self).world.fruits_seq(),
            dirs_has(final(self).world.dirs_seq(), id),
            dir_lookup(final(self).world.dirs_seq(), id) == dir,
            forall|other: SnakeID|
                other != id ==> #[trigger] dirs_has(final(self).world.dirs_seq(), other)
                    == dirs_has(old(self).world.dirs_seq(), other),
            forall|other: SnakeID|
                other != id && dirs_has(final(self).world.dirs_seq(), other)
                    ==> #[trigger] dir_lookup(final(self).world.dirs_seq(), other) == dir_lookup(
                    old(self).world.dirs_seq(),
                    other,
                ),
    {
        self.world.add_snake(snake, dir)
    }

    /// Accepts a new player and returns the join handshake to send back:
    /// the grid dimensions and a previously unused identifier.
    pub fn join(&mut self, color: Color) -> (p: JoinPacket)
        requires
            old(self).world.wf(),
            old(self).world.next_id_spec() < u32::MAX,
        ensures
            final(self).world.wf(),
            p.width == old(self).world.width_spec(),
            p.height == old(self).world.height_spec(),
            p.id.value() == old(self).world.next_id_spec(),
            !has_id(old(self).world.snakes_seq(), p.id),
            has_id(final(self).world.snakes_seq(), p.id),
            final(self).world.next_id_spec() == old(self).world.next_id_spec() + 1,
            final(self).world.width_spec() == old(self).world.width_spec(),
            final(self).world.height_spec() == old(self).world.height_spec(),
            final(self).world.fruits_seq() == old(self).world.fruits_seq(),
            final(self).world.snakes_seq().len() == old(self).world.snakes_seq().len() + 1,
            ({
                let s = final(self).world.snakes_seq().last();
                &&& s.0 == p.id
                &&& s.1.head == (Point {
                    x: old(self).world.width_spec() / 2,
                    y: old(self).world.height_spec() / 2,
                })
                &&& s.1.tail@.len() == SPAWN_LENGTH
                &&& s.1.color == color
            }),
            forall|k: int|
                0 <= k < old(self).world.snakes_seq().len()
                    ==> #[trigger] final(self).world.snakes_seq()[k] == old(
                    self,
                ).world.snakes_seq()[k],
            dirs_has(final(self).world.dirs_seq(), p.id),
            dir_lookup(final(self).world.dirs_seq(), p.id) == SPAWN_DIRECTION,
    {
        self.world.join(color)
    }

    /// Removes a disconnected player's snake, if still live, from the
    /// registry and the pending-direction table.
    pub fn remove_snake(&mut self, id: SnakeID) -> (r: Option<LiveSnake>)
        requires
            old(self).world.wf(),
        ensures
            final(self).world.wf(),
            r is Some <==> has_id(old(self).world.snakes_seq(), id),
            r is Some ==> exists|i: int|
                0 <= i < old(self).world.snakes_seq().len() && (#[trigger] old(
                    self,
                ).world.snakes_seq()[i]).0 == id && r == Some(old(self).world.snakes_seq()[i].1)
                    && final(self).world.snakes_seq() == old(self).world.snakes_seq().remove(i),
            r is None ==> final(self).world.snakes_seq() == old(self).world.snakes_seq(),
            !has_id(final(self).world.snakes_seq(), id),
            forall|other: SnakeID|
                other != id ==> #[trigger] has_id(final(self).world.snakes_seq(), other) == has_id(
                    old(self).world.snakes_seq(),
                    other,
                ),
            !dirs_has(final(self).world.dirs_seq(), id),
            forall|other: SnakeID|
                other != id ==> #[trigger] dirs_has(final(self).world.dirs_seq(), other)
                    == dirs_has(old(self).world.dirs_seq(), other),
            final(self).world.next_id_spec() == old(self).world.next_id_spec(),
            final(self).world.width_spec() == old(self).world.width_spec(),
            final(self).world.height_spec() == old(self).world.height_spec(),
            final(self).world.fruits_seq() == old(self).world.fruits_seq(),
    {
        self.world.remove_snake(id)
    }

    /// The flattened occupied cells of every snake's full body.
    pub fn cells(&self) -> (r: Vec<Point>)
        ensures
            r@ == crate::snakes::cells_of(self.world.snakes_seq()),
    {
        self.world.cells()
    }

    /// The current fruit positions.
    pub fn fruits(&self) -> (r: Vec<Point>)
        ensures
            r@ == self.world.fruits_seq(),
    {
        self.world.fruit_cells()
    }
}

} // verus!
