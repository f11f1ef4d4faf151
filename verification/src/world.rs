//! The grid geometry and the world that owns fruits, snakes and pending
//! directions, with the per-tick update algorithm.

use vstd::prelude::*;

use crate::fruits::fruit_replaced;
use crate::fruits::Fruits;
use crate::snakes::has_id;
use crate::snakes::ids_distinct;
use crate::snakes::is_fed;
use crate::snakes::is_moved;
use crate::protocol::JoinPacket;
use crate::protocol::StatePacket;
use crate::snakes::Color;
use crate::snakes::Direction;
use crate::snakes::Snake;
use crate::snakes::SnakeID;
use crate::snakes::Snakes;

verus! {

/// How many tail segments a freshly joined snake starts with.
pub const SPAWN_LENGTH: usize = 4;

/// The fixed direction a freshly joined snake starts moving in.
pub const SPAWN_DIRECTION: Direction = Direction::Left;

/// A cell of the grid. Coordinates grow rightwards (`x`) and downwards
/// (`y`).
#[derive(Clone, Copy, PartialEq, Eq, Structural, Hash, Debug)]
pub struct Point {
    pub x: u32,
    pub y: u32,
}

impl Point {
    /// The neighbouring cell one step in direction `d`. `Up` and `Left`
    /// decrement a coordinate, `Down` and `Right` increment one; the value
    /// is meaningful only when that stays within `u32`.
    pub open spec fn step_spec(self, d: Direction) -> Point {
        match d {
            Direction::Up => Point { x: self.x, y: (self.y - 1) as u32 },
            Direction::Down => Point { x: self.x, y: (self.y + 1) as u32 },
            Direction::Left => Point { x: (self.x - 1) as u32, y: self.y },
            Direction::Right => Point { x: (self.x + 1) as u32, y: self.y },
        }
    }

    pub fn new(x: u32, y: u32) -> (r: Point)
        ensures
            r == (Point { x, y }),
    {
        Point { x, y }
    }

    /// Moves one cell in direction `d`.
    pub fn step(self, d: Direction) -> (r: Point)
        requires
            d == Direction::Up ==> self.y >= 1,
            d == Direction::Left ==> self.x >= 1,
            d == Direction::Down ==> self.y < u32::MAX,
            d == Direction::Right ==> self.x < u32::MAX,
        ensures
            r == self.step_spec(d),
    {
        match d {
            Direction::Up => Point { x: self.x, y: self.y - 1 },
            Direction::Down => Point { x: self.x, y: self.y + 1 },
            Direction::Left => Point { x: self.x - 1, y: self.y },
            Direction::Right => Point { x: self.x + 1, y: self.y },
        }
    }
}

/// The cell lies outside the playable interior of a `width` by `height`
/// grid: both the zero edge and the far edge count as out of bounds, so
/// the interior is `(0, width) x (0, height)`, exclusive on both sides.
pub open spec fn out_of_world_spec(p: Point, width: u32, height: u32) -> bool {
    p.x == 0 || p.x == width || p.y == 0 || p.y == height
}

/// The cell lies strictly inside the playable interior.
pub open spec fn in_interior(p: Point, width: u32, height: u32) -> bool {
    0 < p.x < width && 0 < p.y < height
}

/// Some entry of the pending-direction table carries the identifier `id`.
pub open spec fn dirs_has(dirs: Seq<(SnakeID, Direction)>, id: SnakeID) -> bool {
    exists|i: int| 0 <= i < dirs.len() && (#[trigger] dirs[i]).0 == id
}

/// All entries of the pending-direction table carry pairwise distinct
/// identifiers.
pub open spec fn dirs_distinct(dirs: Seq<(SnakeID, Direction)>) -> bool {
    forall|i: int, j: int| 0 <= i < j < dirs.len() ==> (#[trigger] dirs[i]).0 != (#[trigger] dirs[j]).0
}

/// The pending direction recorded for `id` (meaningful only when the table
/// has an entry for `id` and its identifiers are distinct).
pub open spec fn dir_lookup(dirs: Seq<(SnakeID, Direction)>, id: SnakeID) -> Direction {
    dirs[choose|i: int| 0 <= i < dirs.len() && (#[trigger] dirs[i]).0 == id].1
}

/// With distinct identifiers, the lookup at an entry's identifier yields
/// that entry's direction.
pub proof fn lemma_dir_lookup_at(dirs: Seq<(SnakeID, Direction)>, i: int)
    requires
        dirs_distinct(dirs),
        0 <= i < dirs.len(),
    ensures
        dirs_has(dirs, dirs[i].0),
        dir_lookup(dirs, dirs[i].0) == dirs[i].1,
{
    let id = dirs[i].0;
    assert(dirs_has(dirs, id));
    let j = choose|j: int| 0 <= j < dirs.len() && (#[trigger] dirs[j]).0 == id;
    if j < i {
        assert(dirs[j].0 != dirs[i].0);
    } else if i < j {
        assert(dirs[i].0 != dirs[j].0);
    }
}

/// Phase one movement: every entry of `moved` carries the same identifier
/// as the matching entry of `pre` and its snake moved one cell in that
/// snake's pending direction.
pub open spec fn entries_moved(
    pre: Seq<(SnakeID, Snake)>,
    moved: Seq<(SnakeID, Snake)>,
    dirs: Seq<(SnakeID, Direction)>,
) -> bool {
    &&& moved.len() == pre.len()
    &&& forall|i: int|
        0 <= i < pre.len() ==> (#[trigger] moved[i]).0 == pre[i].0 && is_moved(
            moved[i].1,
            pre[i].1,
            dir_lookup(dirs, pre[i].0),
        )
}

/// Phase one feeding: `states` is the chain of fruit fields seen by the
/// moved snakes in registry order, starting from the pre-tick field. A
/// snake grew exactly when its new head was a fruit of the field of its
/// moment; that fruit was then replaced by a fresh random one.
pub open spec fn feeding_ok(
    moved: Seq<(SnakeID, Snake)>,
    grew: Seq<bool>,
    states: Seq<Seq<Point>>,
    width: u32,
    height: u32,
) -> bool {
    &&& grew.len() == moved.len()
    &&& states.len() == moved.len() + 1
    &&& forall|i: int|
        0 <= i < moved.len() ==> #[trigger] feeding_step(moved, grew, states, width, height, i)
}

/// The feeding step of the snake at `i`: it grew exactly when its new head
/// was a fruit then, and that fruit was replaced.
pub open spec fn feeding_step(
    moved: Seq<(SnakeID, Snake)>,
    grew: Seq<bool>,
    states: Seq<Seq<Point>>,
    width: u32,
    height: u32,
    i: int,
) -> bool {
    if grew[i] {
        fruit_replaced(states[i], moved[i].1.head, states[i + 1], width, height)
    } else {
        states[i + 1] =~= states[i] && !states[i].contains(moved[i].1.head)
    }
}

/// The moved snake at `i` ran its head into a tail cell of some other
/// moved snake.
pub open spec fn hits_other_tail(entries: Seq<(SnakeID, Snake)>, i: int) -> bool {
    exists|j: int|
        0 <= j < entries.len() && j != i && (#[trigger] entries[j]).1.tail@.contains(
            entries[i].1.head,
        )
}

/// The moved snake at `i` is eliminated this tick: its new head left the
/// playable interior or landed on another snake's tail.
pub open spec fn hit_at(entries: Seq<(SnakeID, Snake)>, i: int, width: u32, height: u32) -> bool {
    out_of_world_spec(entries[i].1.head, width, height) || hits_other_tail(entries, i)
}

/// The snake with identifier `id` is eliminated this tick.
pub open spec fn eliminated(
    moved: Seq<(SnakeID, Snake)>,
    id: SnakeID,
    width: u32,
    height: u32,
) -> bool {
    exists|i: int|
        0 <= i < moved.len() && (#[trigger] moved[i]).0 == id && hit_at(moved, i, width, height)
}

/// Entry `k` of `post` is some entry of `pre` whose flag equals `want`.
pub open spec fn drawn_from(
    post: Seq<(SnakeID, Snake)>,
    pre: Seq<(SnakeID, Snake)>,
    flags: Seq<bool>,
    want: bool,
    k: int,
) -> bool {
    exists|i: int|
        #![trigger flags[i]]
        0 <= i < flags.len() && flags[i] == want && post[k] == pre[i]
}

/// Some entry of `dst` carries the snake at `i` of the moved registry,
/// fed according to `grew`.
pub open spec fn fed_into(
    dst: Seq<(SnakeID, Snake)>,
    moved: Seq<(SnakeID, Snake)>,
    grew: Seq<bool>,
    i: int,
) -> bool {
    exists|k: int|
        #![trigger dst[k]]
        0 <= k < dst.len() && dst[k].0 == moved[i].0 && is_fed(dst[k].1, moved[i].1, grew[i])
}

/// Entry `k` of `dst` is some moved snake, fed according to `grew`, whose
/// elimination verdict equals `hit`.
pub open spec fn fed_origin(
    dst: Seq<(SnakeID, Snake)>,
    moved: Seq<(SnakeID, Snake)>,
    grew: Seq<bool>,
    width: u32,
    height: u32,
    hit: bool,
    k: int,
) -> bool {
    exists|i: int|
        #![trigger moved[i]]
        0 <= i < moved.len() && dst[k].0 == moved[i].0 && hit_at(moved, i, width, height) == hit
            && is_fed(dst[k].1, moved[i].1, grew[i])
}

/// One tick of the world, with the phase one witnesses spelled out:
/// `moved` is every pre-tick snake after its move, `grew` records which
/// snakes ate, and `states` is the chain of fruit fields they saw.
pub open spec fn update_rel_with(
    pre_snakes: Seq<(SnakeID, Snake)>,
    pre_fruits: Seq<Point>,
    pre_dirs: Seq<(SnakeID, Direction)>,
    post_snakes: Seq<(SnakeID, Snake)>,
    post_fruits: Seq<Point>,
    post_dirs: Seq<(SnakeID, Direction)>,
    hits: Seq<(SnakeID, Snake)>,
    width: u32,
    height: u32,
    moved: Seq<(SnakeID, Snake)>,
    grew: Seq<bool>,
    states: Seq<Seq<Point>>,
) -> bool {
    let n = pre_snakes.len() as int;
    &&& entries_moved(pre_snakes, moved, pre_dirs)
    &&& feeding_ok(moved, grew, states, width, height)
    &&& states[0] == pre_fruits
    &&& post_fruits == states[n]
    &&& post_snakes.len() + hits.len() == n
    &&& forall|i: int|
        0 <= i < n && !(#[trigger] hit_at(moved, i, width, height)) ==> fed_into(
            post_snakes,
            moved,
            grew,
            i,
        )
    &&& forall|i: int|
        0 <= i < n && (#[trigger] hit_at(moved, i, width, height)) ==> fed_into(
            hits,
            moved,
            grew,
            i,
        )
    &&& forall|k: int|
        0 <= k < post_snakes.len() ==> #[trigger] fed_origin(
            post_snakes,
            moved,
            grew,
            width,
            height,
            false,
            k,
        )
    &&& forall|k: int|
        0 <= k < hits.len() ==> #[trigger] fed_origin(hits, moved, grew, width, height, true, k)
    &&& forall|id: SnakeID|
        #[trigger] has_id(post_snakes, id) <==> has_id(pre_snakes, id) && !eliminated(
            moved,
            id,
            width,
            height,
        )
    &&& forall|id: SnakeID|
        #[trigger] dirs_has(post_dirs, id) <==> dirs_has(pre_dirs, id) && !has_id(hits, id)
    &&& forall|id: SnakeID|
        dirs_has(post_dirs, id) ==> #[trigger] dir_lookup(post_dirs, id) == dir_lookup(
            pre_dirs,
            id,
        )
}

/// One tick of the world: every snake moved one cell in its pending
/// direction and grew exactly when its head reached a fruit (each eaten
/// fruit replaced by a fresh random one); afterwards exactly the snakes
/// whose new head left the interior or landed on another snake's tail
/// were removed, each reported once in `hits` with its final body, and
/// their pending-direction entries dropped.
pub open spec fn update_rel(
    pre_snakes: Seq<(SnakeID, Snake)>,
    pre_fruits: Seq<Point>,
    pre_dirs: Seq<(SnakeID, Direction)>,
    post_snakes: Seq<(SnakeID, Snake)>,
    post_fruits: Seq<Point>,
    post_dirs: Seq<(SnakeID, Direction)>,
    hits: Seq<(SnakeID, Snake)>,
    width: u32,
    height: u32,
) -> bool {
    exists|moved: Seq<(SnakeID, Snake)>, grew: Seq<bool>, states: Seq<Seq<Point>>|
        #[trigger] update_rel_with(
            pre_snakes,
            pre_fruits,
            pre_dirs,
            post_snakes,
            post_fruits,
            post_dirs,
            hits,
            width,
            height,
            moved,
            grew,
            states,
        )
}

/// The authoritative game world: the fruit field, the snake registry, the
/// pending-direction table, and the immutable grid dimensions.
pub struct World {
    snakes: Snakes,
    fruits: Fruits,
    directions: Vec<(SnakeID, Direction)>,
    height: u32,
    width: u32,
}

impl World {
    /// The live registry entries, in insertion order.
    pub closed spec fn snakes_seq(&self) -> Seq<(SnakeID, Snake)> {
        self.snakes.entries()
    }

    /// The current fruit positions.
    pub closed spec fn fruits_seq(&self) -> Seq<Point> {
        self.fruits.fruits()
    }

    /// The pending-direction table.
    pub closed spec fn dirs_seq(&self) -> Seq<(SnakeID, Direction)> {
        self.directions@
    }

    pub closed spec fn width_spec(&self) -> u32 {
        self.width
    }

    pub closed spec fn height_spec(&self) -> u32 {
        self.height
    }

    /// The next identifier value the registry will issue.
    pub closed spec fn next_id_spec(&self) -> u32 {
        self.snakes.counter_spec()
    }

    /// The world invariant: a grid of at least two cells each way, a well
    /// formed registry and fruit field that agree on the dimensions, every
    /// live head strictly inside the interior, and exactly one
    /// pending-direction entry for every live snake.
    pub closed spec fn wf(&self) -> bool {
        &&& 2 <= self.width
        &&& 2 <= self.height
        &&& self.snakes.wf()
        &&& self.fruits.wf()
        &&& self.fruits.width_spec() == self.width
        &&& self.fruits.height_spec() == self.height
        &&& forall|i: int|
            0 <= i < self.snakes.entries().len() ==> in_interior(
                (#[trigger] self.snakes.entries()[i]).1.head,
                self.width,
                self.height,
            )
        &&& dirs_distinct(self.directions@)
        &&& forall|i: int|
            0 <= i < self.snakes.entries().len() ==> dirs_has(
                self.directions@,
                (#[trigger] self.snakes.entries()[i]).0,
            )
    }

    /// A fresh world with no snakes and `fruits_count` random fruits.
    pub fn new(height: u32, width: u32, fruits_count: u32) -> (r: World)
        requires
            2 <= width,
            2 <= height,
        ensures
            r.wf(),
            r.width_spec() == width,
            r.height_spec() == height,
            r.snakes_seq() == Seq::<(SnakeID, Snake)>::empty(),
            r.dirs_seq() == Seq::<(SnakeID, Direction)>::empty(),
            r.next_id_spec() == 0,
            r.fruits_seq().len() == fruits_count,
            forall|i: int|
                0 <= i < r.fruits_seq().len() ==> (#[trigger] r.fruits_seq()[i]).x + 1 < width
                    && r.fruits_seq()[i].y + 1 < height,
    {
        World {
            height,
            width,
            snakes: Snakes::new(),
            fruits: Fruits::new(fruits_count, width, height),
            directions: Vec::new(),
        }
    }

    /// The grid width.
    pub fn width(&self) -> (r: u32)
        ensures
            r == self.width_spec(),
    {
        self.width
    }

    /// The grid height.
    pub fn height(&self) -> (r: u32)
        ensures
            r == self.height_spec(),
    {
        self.height
    }

    /// The pending direction of a snake that has one.
    pub fn dir_get(&self, id: SnakeID) -> (r: Direction)
        requires
            dirs_distinct(self.dirs_seq()),
            dirs_has(self.dirs_seq(), id),
        ensures
            r == dir_lookup(self.dirs_seq(), id),
    {
        let n = self.directions.len();
        let mut i: usize = 0;
        while i < n
            invariant
                i <= n,
                n == self.dirs_seq().len(),
                dirs_distinct(self.dirs_seq()),
                dirs_has(self.dirs_seq(), id),
                forall|j: int| 0 <= j < i ==> (#[trigger] self.dirs_seq()[j]).0 != id,
            decreases n - i,
        {
            if self.directions[i].0 == id {
                proof {
                    lemma_dir_lookup_at(self.dirs_seq(), i as int);
                }
                return self.directions[i].1;
            }
            i = i + 1;
        }
        proof {
            let w = choose|j: int|
                0 <= j < self.dirs_seq().len() && (#[trigger] self.dirs_seq()[j]).0 == id;
            assert(false);
        }
        unreached()
    }

    /// Records `dir` for `id`, overwriting an existing entry or inserting a
    /// fresh one. Nothing else changes.
    fn upsert_dir(&mut self, id: SnakeID, dir: Direction)
        requires
            dirs_distinct(old(self).dirs_seq()),
        ensures
            dirs_distinct(final(self).dirs_seq()),
            dirs_has(final(self).dirs_seq(), id),
            dir_lookup(final(self).dirs_seq(), id) == dir,
            forall|other: SnakeID|
                other != id ==> #[trigger] dirs_has(final(self).dirs_seq(), other) == dirs_has(
                    old(self).dirs_seq(),
                    other,
                ),
            forall|other: SnakeID|
                other != id && dirs_has(final(self).dirs_seq(), other) ==> #[trigger] dir_lookup(
                    final(self).dirs_seq(),
                    other,
                ) == dir_lookup(old(self).dirs_seq(), other),
            final(self).snakes == old(self).snakes,
            final(self).fruits == old(self).fruits,
            final(self).width == old(self).width,
            final(self).height == old(self).height,
    {
        let n = self.directions.len();
        let mut i: usize = 0;
        while i < n
            invariant
                i <= n,
                n == self.dirs_seq().len(),
                *self == *old(self),
                dirs_distinct(self.dirs_seq()),
                forall|j: int| 0 <= j < i ==> (#[trigger] self.dirs_seq()[j]).0 != id,
            decreases n - i,
        {
            if self.directions[i].0 == id {
                self.directions.set(i, (id, dir));
                proof {
                    let post = self.dirs_seq();
                    assert(post[i as int].0 == id);
                    assert forall|a: int, b: int| 0 <= a < b < post.len() implies (
                    #[trigger] post[a]).0 != (#[trigger] post[b]).0 by {
                        if a != i && b != i {
                            assert(post[a] == old(self).dirs_seq()[a]);
                            assert(post[b] == old(self).dirs_seq()[b]);
                        } else if a == i {
                            assert(post[b] == old(self).dirs_seq()[b]);
                            assert(old(self).dirs_seq()[b].0 != id) by {
                                if old(self).dirs_seq()[b].0 == id {
                                    assert((#[trigger] old(self).dirs_seq()[b]).0 == old(
                                        self,
                                    ).dirs_seq()[i as int].0);
                                }
                            }
                        } else {
                            assert(post[a] == old(self).dirs_seq()[a]);
                        }
                    }
                    lemma_dir_lookup_at(post, i as int);
                    assert forall|other: SnakeID| other != id implies #[trigger] dirs_has(
                        post,
                        other,
                    ) == dirs_has(old(self).dirs_seq(), other) by {
                        lemma_upsert_others(old(self).dirs_seq(), post, i as int, id, other);
                    }
                    assert forall|other: SnakeID|
                        other != id && dirs_has(post, other) implies #[trigger] dir_lookup(
                        post,
                        other,
                    ) == dir_lookup(old(self).dirs_seq(), other) by {
                        let j = choose|j: int|
                            0 <= j < post.len() && (#[trigger] post[j]).0 == other;
                        assert(post[j] == old(self).dirs_seq()[j]);
                        lemma_dir_lookup_at(post, j);
                        lemma_dir_lookup_at(old(self).dirs_seq(), j);
                    }
                }
                return ;
            }
            i = i + 1;
        }
        self.directions.push((id, dir));
        proof {
            let post = self.dirs_seq();
            let m = old(self).dirs_seq().len() as int;
            assert(post[m].0 == id);
            assert forall|a: int, b: int| 0 <= a < b < post.len() implies (#[trigger] post[a]).0
                != (#[trigger] post[b]).0 by {
                if b < m {
                    assert(post[a] == old(self).dirs_seq()[a]);
                    assert(post[b] == old(self).dirs_seq()[b]);
                } else {
                    assert(post[a] == old(self).dirs_seq()[a]);
                    assert(post[a].0 != id);
                }
            }
            lemma_dir_lookup_at(post, m);
            assert forall|other: SnakeID| other != id implies #[trigger] dirs_has(post, other)
                == dirs_has(old(self).dirs_seq(), other) by {
                if dirs_has(post, other) {
                    let j = choose|j: int| 0 <= j < post.len() && (#[trigger] post[j]).0 == other;
                    assert(j < m);
                    assert(old(self).dirs_seq()[j].0 == other);
                }
                if dirs_has(old(self).dirs_seq(), other) {
                    let j = choose|j: int|
                        0 <= j < old(self).dirs_seq().len() && (#[trigger] old(
                            self,
                        ).dirs_seq()[j]).0 == other;
                    assert(post[j].0 == other);
                }
            }
            assert forall|other: SnakeID|
                other != id && dirs_has(post, other) implies #[trigger] dir_lookup(post, other)
                == dir_lookup(old(self).dirs_seq(), other) by {
                let j = choose|j: int| 0 <= j < post.len() && (#[trigger] post[j]).0 == other;
                assert(j < m);
                assert(post[j] == old(self).dirs_seq()[j]);
                lemma_dir_lookup_at(post, j);
                lemma_dir_lookup_at(old(self).dirs_seq(), j);
            }
        }
    }

    /// Overwrites the pending direction of a snake with the last command
    /// received for it; the change is applied at the next tick.
    pub fn change_dir(&mut self, snake: SnakeID, new_dir: Direction)
        requires
            old(self).wf(),
        ensures
            final(self).wf(),
            final(self).snakes_seq() == old(self).snakes_seq(),
            final(self).fruits_seq() == old(self).fruits_seq(),
            final(self).width_spec() == old(self).width_spec(),
            final(self).height_spec() == old(self).height_spec(),
            final(self).next_id_spec() == old(self).next_id_spec(),
            dirs_has(final(self).dirs_seq(), snake),
            dir_lookup(final(self).dirs_seq(), snake) == new_dir,
            forall|other: SnakeID|
                other != snake ==> #[trigger] dirs_has(final(self).dirs_seq(), other) == dirs_has(
                    old(self).dirs_seq(),
                    other,
                ),
            forall|other: SnakeID|
                other != snake && dirs_has(final(self).dirs_seq(), other)
                    ==> #[trigger] dir_lookup(final(self).dirs_seq(), other) == dir_lookup(
                    old(self).dirs_seq(),
                    other,
                ),
    {
        self.upsert_dir(snake, new_dir);
    }

    /// Inserts a snake under a fresh, never previously issued identifier
    /// and records `dir` as its pending direction. The head must lie in
    /// the playable interior.
    pub fn add_snake(&mut self, snake: Snake, dir: Direction) -> (id: SnakeID)
        requires
            old(self).wf(),
            snake.wf(),
            in_interior(snake.head, old(self).width_spec(), old(self).height_spec()),
            old(self).next_id_spec() < u32::MAX,
        ensures
            final(self).wf(),
            id.value() == old(self).next_id_spec(),
            !has_id(old(self).snakes_seq(), id),
            final(self).snakes_seq() == old(self).snakes_seq().push((id, snake)),
            final(self).next_id_spec() == old(self).next_id_spec() + 1,
            final(self).fruits_seq() == old(self).fruits_seq(),
            final(self).width_spec() == old(self).width_spec(),
            final(self).height_spec() == old(self).height_spec(),
            dirs_has(final(self).dirs_seq(), id),
            dir_lookup(final(self).dirs_seq(), id) == dir,
            forall|other: SnakeID|
                other != id ==> #[trigger] dirs_has(final(self).dirs_seq(), other) == dirs_has(
                    old(self).dirs_seq(),
                    other,
                ),
            forall|other: SnakeID|
                other != id && dirs_has(final(self).dirs_seq(), other) ==> #[trigger] dir_lookup(
                    final(self).dirs_seq(),
                    other,
                ) == dir_lookup(old(self).dirs_seq(), other),
    {
        let id = self.snakes.add(snake);
        self.upsert_dir(id, dir);
        proof {
            assert forall|i: int| 0 <= i < self.snakes.entries().len() implies dirs_has(
                self.directions@,
                (#[trigger] self.snakes.entries()[i]).0,
            ) by {
                if i < old(self).snakes.entries().len() {
                    assert(self.snakes.entries()[i] == old(self).snakes.entries()[i]);
                    if self.snakes.entries()[i].0 != id {
                        assert(dirs_has(old(self).directions@, self.snakes.entries()[i].0));
                    }
                }
            }
        }
        id
    }

    /// Removes the snake with identifier `id`, if live, from both the
    /// registry and the pending-direction table, and hands it back.
    pub fn remove_snake(&mut self, id: SnakeID) -> (r: Option<Snake>)
        requires
            old(self).wf(),
        ensures
            final(self).wf(),
            final(self).fruits_seq() == old(self).fruits_seq(),
            final(self).width_spec() == old(self).width_spec(),
            final(self).height_spec() == old(self).height_spec(),
            final(self).next_id_spec() == old(self).next_id_spec(),
            r is Some <==> has_id(old(self).snakes_seq(), id),
            r is Some ==> exists|i: int|
                0 <= i < old(self).snakes_seq().len() && (#[trigger] old(self).snakes_seq()[i]).0
                    == id && r == Some(old(self).snakes_seq()[i].1) && final(self).snakes_seq()
                    == old(self).snakes_seq().remove(i),
            r is None ==> final(self).snakes_seq() == old(self).snakes_seq(),
            !has_id(final(self).snakes_seq(), id),
            forall|other: SnakeID|
                other != id ==> #[trigger] has_id(final(self).snakes_seq(), other) == has_id(
                    old(self).snakes_seq(),
                    other,
                ),
            !dirs_has(final(self).dirs_seq(), id),
            forall|other: SnakeID|
                other != id ==> #[trigger] dirs_has(final(self).dirs_seq(), other) == dirs_has(
                    old(self).dirs_seq(),
                    other,
                ),
    {
        let r = if self.snakes.contains(id) {
            let snake = self.snakes.remove_snake(id);
            Some(snake)
        } else {
            None
        };
        self.remove_dir(id);
        proof {
            if r is Some {
                let i = choose|i: int|
                    0 <= i < old(self).snakes.entries().len() && (#[trigger] old(
                        self,
                    ).snakes.entries()[i]).0 == id && r == Some(old(self).snakes.entries()[i].1)
                        && self.snakes.entries() == old(self).snakes.entries().remove(i);
                assert forall|j: int| 0 <= j < self.snakes.entries().len() implies in_interior(
                    (#[trigger] self.snakes.entries()[j]).1.head,
                    self.width,
                    self.height,
                ) && dirs_has(self.directions@, self.snakes.entries()[j].0) by {
                    let sj = if j < i {
                        j
                    } else {
                        j + 1
                    };
                    assert(self.snakes.entries()[j] == old(self).snakes.entries()[sj]);
                    assert(in_interior(old(self).snakes.entries()[sj].1.head, self.width, self.height));
                    assert(dirs_has(old(self).directions@, old(self).snakes.entries()[sj].0));
                    assert(self.snakes.entries()[j].0 != id);
                }
            } else {
                assert forall|j: int| 0 <= j < self.snakes.entries().len() implies dirs_has(
                    self.directions@,
                    (#[trigger] self.snakes.entries()[j]).0,
                ) by {
                    assert(dirs_has(old(self).directions@, self.snakes.entries()[j].0));
                    assert(self.snakes.entries()[j].0 != id);
                }
            }
        }
        r
    }

    /// The flattened occupied cells of every live snake's full body.
    pub fn cells(&self) -> (r: Vec<Point>)
        ensures
            r@ == crate::snakes::cells_of(self.snakes_seq()),
    {
        self.snakes.cells()
    }

    /// The current fruit positions, in an unspecified order.
    pub fn fruit_cells(&self) -> (r: Vec<Point>)
        ensures
            r@ == self.fruits_seq(),
    {
        self.fruits.iter()
    }

    /// How many fruits are on the field.
    pub fn fruit_count(&self) -> (r: usize)
        ensures
            r == self.fruits_seq().len(),
    {
        self.fruits.len()
    }

    /// The live registry entries as owned copies.
    pub fn snake_entries(&self) -> (r: Vec<(SnakeID, Snake)>)
        ensures
            r@.len() == self.snakes_seq().len(),
            forall|i: int|
                0 <= i < r@.len() ==> (#[trigger] r@[i]).0 == self.snakes_seq()[i].0
                    && crate::snakes::snake_like(r@[i].1, self.snakes_seq()[i].1),
    {
        self.snakes.iter()
    }

    /// Whether a snake with this identifier is live.
    pub fn contains_snake(&self, id: SnakeID) -> (r: bool)
        ensures
            r == has_id(self.snakes_seq(), id),
    {
        self.snakes.contains(id)
    }

    /// One simulation tick, in two strict phases. Phase one: every snake,
    /// in registry order, shifts its tail one slot toward the head, puts
    /// its old head in front of the tail, moves its head one cell in its
    /// pending direction, and grows by one duplicated tail-end segment
    /// exactly when the new head reached a fruit (each eaten fruit is
    /// replaced by a fresh random one, so the fruit count never changes).
    /// Phase two, evaluated only on the fully moved registry: every snake
    /// whose new head left the playable interior or landed on another
    /// snake's tail is removed from the registry and from the
    /// pending-direction table, and reported exactly once in the returned
    /// eliminations, with its final body.
    #[verifier::rlimit(100)]
    pub fn update(&mut self) -> (hits: Vec<(SnakeID, Snake)>)
        requires
            old(self).wf(),
        ensures
            final(self).wf(),
            final(self).width_spec() == old(self).width_spec(),
            final(self).height_spec() == old(self).height_spec(),
            final(self).next_id_spec() == old(self).next_id_spec(),
            final(self).fruits_seq().len() == old(self).fruits_seq().len(),
            ids_distinct(old(self).snakes_seq()),
            dirs_distinct(old(self).dirs_seq()),
            ids_distinct(hits@),
            update_rel(
                old(self).snakes_seq(),
                old(self).fruits_seq(),
                old(self).dirs_seq(),
                final(self).snakes_seq(),
                final(self).fruits_seq(),
                final(self).dirs_seq(),
                hits@,
                old(self).width_spec(),
                old(self).height_spec(),
            ),
    {
        let ghost pre = *old(self);
        let ghost w = pre.width;
        let ghost h = pre.height;
        let ghost pre_entries = pre.snakes.entries();
        let g = self.move_and_feed();
        let ghost moved = g@.0;
        let ghost grew = g@.1;
        let ghost states = g@.2;
        let ghost fed_entries = self.snakes.entries();
        proof {
            assert forall|a: int, b: int| 0 <= a < b < fed_entries.len() implies (
            #[trigger] fed_entries[a]).0 != (#[trigger] fed_entries[b]).0 by {
                assert(fed_entries[a].0 == moved[a].0);
                assert(moved[a].0 == pre_entries[a].0);
                assert(fed_entries[b].0 == moved[b].0);
                assert(moved[b].0 == pre_entries[b].0);
            }
        }
        let flags = self.collision_flags(Ghost(moved), Ghost(grew));
        let hits = self.split_hits(&flags);
        let ghost mid_entries = self.snakes.entries();
        self.retain_dirs(&hits);
        proof {
            assert(self.snakes.entries() == mid_entries);
            let post_entries = self.snakes.entries();
            lemma_tick_mappings(
                pre_entries,
                fed_entries,
                post_entries,
                hits@,
                flags@,
                moved,
                grew,
                w,
                h,
            );
            lemma_tick_membership(
                pre_entries,
                fed_entries,
                post_entries,
                hits@,
                flags@,
                moved,
                grew,
                w,
                h,
            );
            // the witnesses close the update relation
            assert(update_rel_with(
                pre.snakes_seq(),
                pre.fruits_seq(),
                pre.dirs_seq(),
                self.snakes_seq(),
                self.fruits_seq(),
                self.dirs_seq(),
                hits@,
                w,
                h,
                moved,
                grew,
                states,
            ));
            // the world invariant is restored
            assert forall|k: int| 0 <= k < post_entries.len() implies in_interior(
                (#[trigger] post_entries[k]).1.head,
                w,
                h,
            ) && post_entries[k].0.value() < self.snakes.counter_spec() && post_entries[k].1.wf()
                && dirs_has(self.directions@, post_entries[k].0) by {
                assert(fed_origin(post_entries, moved, grew, w, h, false, k));
                let i = choose|i: int|
                    #![trigger moved[i]]
                    0 <= i < moved.len() && post_entries[k].0 == moved[i].0 && hit_at(
                        moved,
                        i,
                        w,
                        h,
                    ) == false && is_fed(post_entries[k].1, moved[i].1, grew[i]);
                assert(!out_of_world_spec(moved[i].1.head, w, h));
                assert(post_entries[k].1.head == moved[i].1.head);
                assert(moved[i].1.head.x <= w && moved[i].1.head.y <= h);
                assert(post_entries[k].0 == pre_entries[i].0);
                assert(pre_entries[i].0.value() < pre.snakes.counter_spec());
                assert(moved[i].1.wf());
                assert(dirs_has(pre.directions@, pre_entries[i].0));
                assert(has_id(post_entries, post_entries[k].0));
                assert(!has_id(hits@, post_entries[k].0));
            }
            assert(self.wf());
        }
        hits
    }

    /// Phase one of a tick: moves every snake one cell in its pending
    /// direction, in registry order, and grows every snake whose new head
    /// reached a fruit. Returns the ghost witnesses: the moved snakes, who
    /// grew, and the chain of fruit fields.
    fn move_and_feed(&mut self) -> (g: Ghost<(Seq<(SnakeID, Snake)>, Seq<bool>, Seq<Seq<Point>>)>)
        requires
            old(self).wf(),
        ensures
            ({
                let moved = g@.0;
                let grew = g@.1;
                let states = g@.2;
                &&& entries_moved(old(self).snakes_seq(), moved, old(self).dirs_seq())
                &&& feeding_ok(moved, grew, states, old(self).width_spec(), old(self).height_spec())
                &&& states[0] == old(self).fruits_seq()
                &&& final(self).fruits_seq() == states[old(self).snakes_seq().len() as int]
                &&& final(self).snakes_seq().len() == moved.len()
                &&& forall|k: int|
                    0 <= k < moved.len() ==> (#[trigger] final(self).snakes_seq()[k]).0
                        == moved[k].0 && is_fed(final(self).snakes_seq()[k].1, moved[k].1, grew[k])
                &&& forall|k: int|
                    0 <= k < moved.len() ==> (#[trigger] moved[k]).1.wf() && moved[k].1.head.x
                        <= old(self).width_spec() && moved[k].1.head.y <= old(self).height_spec()
            }),
            final(self).dirs_seq() == old(self).dirs_seq(),
            final(self).width_spec() == old(self).width_spec(),
            final(self).height_spec() == old(self).height_spec(),
            final(self).next_id_spec() == old(self).next_id_spec(),
            final(self).fruits_seq().len() == old(self).fruits_seq().len(),
            final(self).fruits.wf(),
            final(self).fruits.width_spec() == old(self).width_spec(),
            final(self).fruits.height_spec() == old(self).height_spec(),
    {
        let ghost pre = *old(self);
        let n = self.snakes.len();
        let ghost pre_entries = pre.snakes.entries();
        let mut i: usize = 0;
        let ghost mut moved: Seq<(SnakeID, Snake)> = Seq::empty();
        let ghost mut grew: Seq<bool> = Seq::empty();
        let ghost mut states: Seq<Seq<Point>> = seq![pre.fruits.fruits()];
        let ghost mut fed: Seq<(SnakeID, Snake)> = Seq::empty();
        proof {
            assert(self.snakes.entries() =~= pre_entries.subrange(0, n as int) + fed);
        }
        while i < n
            invariant
                i <= n,
                pre.wf(),
                n == pre_entries.len(),
                pre_entries == pre.snakes.entries(),
                self.width == pre.width,
                self.height == pre.height,
                self.directions@ == pre.directions@,
                self.snakes.counter_spec() == pre.snakes.counter_spec(),
                self.snakes.entries() == pre_entries.subrange(i as int, n as int) + fed,
                moved.len() == i,
                grew.len() == i,
                fed.len() == i,
                states.len() == i + 1,
                states[0] == pre.fruits.fruits(),
                self.fruits.fruits() == states[i as int],
                self.fruits.wf(),
                self.fruits.width_spec() == pre.width,
                self.fruits.height_spec() == pre.height,
                self.fruits.fruits().len() == pre.fruits.fruits().len(),
                forall|k: int|
                    0 <= k < i ==> (#[trigger] moved[k]).0 == pre_entries[k].0 && is_moved(
                        moved[k].1,
                        pre_entries[k].1,
                        dir_lookup(pre.directions@, pre_entries[k].0),
                    ),
                forall|k: int|
                    0 <= k < i ==> #[trigger] feeding_step(
                        moved,
                        grew,
                        states,
                        pre.width,
                        pre.height,
                        k,
                    ),
                forall|k: int|
                    0 <= k < i ==> (#[trigger] fed[k]).0 == moved[k].0 && is_fed(
                        fed[k].1,
                        moved[k].1,
                        grew[k],
                    ),
                forall|k: int|
                    0 <= k < i ==> (#[trigger] moved[k]).1.wf() && moved[k].1.head.x <= pre.width
                        && moved[k].1.head.y <= pre.height,
            decreases n - i,
        {
            let ghost entries_before = self.snakes.entries();
            let ghost moved_entry = moved;
            let e = self.snakes.pop_front();
            let id = e.0;
            let mut snake = e.1;
            proof {
                assert(entries_before[0] == pre_entries[i as int]);
                assert(self.snakes.entries() =~= pre_entries.subrange(i + 1, n as int) + fed);
                assert(in_interior(snake.head, pre.width, pre.height));
                assert(snake.wf());
                assert(dirs_has(self.directions@, id));
            }
            let d = self.dir_get(id);
            snake.advance(d);
            proof {
                moved = moved.push((id, snake));
                assert(moved[i as int].1.wf());
                assert(moved[i as int].1.head.x <= pre.width && moved[i as int].1.head.y
                    <= pre.height);
            }
            let ghost fruits_before = self.fruits.fruits();
            let ate = self.fruits.try_eat(snake.head());
            let ghost fruits_after = self.fruits.fruits();
            if ate {
                snake.grow();
            }
            let ghost grew0 = grew;
            let ghost states0 = states;
            proof {
                grew = grew.push(ate);
                states = states.push(fruits_after);
                fed = fed.push((id, snake));
                let ki = i as int;
                assert(states[ki] == fruits_before);
                assert(states[ki + 1] == fruits_after);
                if ate {
                    assert(fruit_replaced(
                        fruits_before,
                        moved[ki].1.head,
                        fruits_after,
                        pre.width,
                        pre.height,
                    ));
                } else {
                    assert(fruits_after == fruits_before && !fruits_before.contains(
                        moved[ki].1.head,
                    ));
                }
                assert(feeding_step(moved, grew, states, pre.width, pre.height, ki));
                assert(is_fed(fed[ki].1, moved[ki].1, grew[ki]));
            }
            self.snakes.push_back((id, snake));
            i = i + 1;
            proof {
                assert(self.snakes.entries() =~= pre_entries.subrange(i as int, n as int) + fed);
                let ki = i as int - 1;
                assert forall|k: int| 0 <= k < i implies #[trigger] feeding_step(
                    moved,
                    grew,
                    states,
                    pre.width,
                    pre.height,
                    k,
                ) by {
                    if k < ki {
                        assert(feeding_step(moved_entry, grew0, states0, pre.width, pre.height, k));
                        assert(moved[k] == moved_entry[k]);
                        assert(grew[k] == grew0[k]);
                        assert(states[k] == states0[k]);
                        assert(states[k + 1] == states0[k + 1]);
                    }
                }
            }
        }
        proof {
            assert(self.snakes.entries() =~= fed);
            assert(pre_entries.subrange(0, n as int) =~= pre_entries);
        }
        Ghost((moved, grew, states))
    }

    /// Phase two of a tick: computes, for every snake of the moved
    /// registry, whether its new head left the playable interior or landed
    /// on another snake's tail. Tails are read post-move; growth only
    /// duplicates a tail cell, so the fed tails cover the same cells as
    /// the moved ones.
    fn collision_flags(
        &self,
        Ghost(moved): Ghost<Seq<(SnakeID, Snake)>>,
        Ghost(grew): Ghost<Seq<bool>>,
    ) -> (flags: Vec<bool>)
        requires
            self.snakes_seq().len() == moved.len(),
            grew.len() == moved.len(),
            forall|k: int|
                0 <= k < moved.len() ==> (#[trigger] self.snakes_seq()[k]).0 == moved[k].0
                    && is_fed(self.snakes_seq()[k].1, moved[k].1, grew[k]),
            forall|k: int| 0 <= k < moved.len() ==> (#[trigger] moved[k]).1.wf(),
        ensures
            flags@.len() == moved.len(),
            forall|k: int|
                0 <= k < moved.len() ==> flags@[k] == hit_at(
                    moved,
                    k,
                    self.width_spec(),
                    self.height_spec(),
                ),
    {
        let n = self.snakes.len();
        let mut flags: Vec<bool> = Vec::new();
        let mut i: usize = 0;
        while i < n
            invariant
                i <= n,
                n == moved.len(),
                self.snakes.entries().len() == moved.len(),
                grew.len() == moved.len(),
                forall|k: int|
                    0 <= k < moved.len() ==> (#[trigger] self.snakes.entries()[k]).0 == moved[k].0
                        && is_fed(self.snakes.entries()[k].1, moved[k].1, grew[k]),
                forall|k: int| 0 <= k < moved.len() ==> (#[trigger] moved[k]).1.wf(),
                flags@.len() == i,
                forall|k: int|
                    0 <= k < i ==> flags@[k] == hit_at(moved, k, self.width, self.height),
            decreases n - i,
        {
            let head = self.snakes.entry_at(i).1.head;
            proof {
                assert(head == moved[i as int].1.head);
            }
            let oob = self.out_of_world(head);
            let mut hit = oob;
            if !hit {
                let mut j: usize = 0;
                while j < n
                    invariant
                        i < n,
                        j <= n,
                        n == moved.len(),
                        self.snakes.entries().len() == moved.len(),
                        grew.len() == moved.len(),
                        forall|k: int|
                            0 <= k < moved.len() ==> (#[trigger] self.snakes.entries()[k]).0
                                == moved[k].0 && is_fed(
                                self.snakes.entries()[k].1,
                                moved[k].1,
                                grew[k],
                            ),
                        forall|k: int| 0 <= k < moved.len() ==> (#[trigger] moved[k]).1.wf(),
                        head == moved[i as int].1.head,
                        !hit ==> forall|jj: int|
                            0 <= jj < j && jj != i ==> !(#[trigger] moved[jj]).1.tail@.contains(
                                head,
                            ),
                        hit ==> hits_other_tail(moved, i as int),
                    decreases n - j,
                {
                    if j != i && !hit {
                        let found = point_in(self.snakes.entry_at(j).1.tail(), head);
                        proof {
                            lemma_fed_tail_contains(
                                self.snakes.entries()[j as int].1,
                                moved[j as int].1,
                                grew[j as int],
                                head,
                            );
                            if found {
                                assert(moved[j as int].1.tail@.contains(head));
                                assert(hits_other_tail(moved, i as int));
                            }
                        }
                        hit = found;
                    }
                    j = j + 1;
                }
            }
            proof {
                assert(hit == hit_at(moved, i as int, self.width, self.height)) by {
                    if !hit {
                        assert(!out_of_world_spec(moved[i as int].1.head, self.width, self.height));
                        if hits_other_tail(moved, i as int) {
                            let jj = choose|jj: int|
                                0 <= jj < moved.len() && jj != i && (
                                #[trigger] moved[jj]).1.tail@.contains(moved[i as int].1.head);
                            assert(false);
                        }
                    }
                }
            }
            flags.push(hit);
            i = i + 1;
        }
        flags
    }

    /// Phase three of a tick: removes every flagged snake from the
    /// registry and hands the removed entries back, each exactly once.
    #[verifier::rlimit(60)]
    fn split_hits(&mut self, flags: &Vec<bool>) -> (hits: Vec<(SnakeID, Snake)>)
        requires
            flags@.len() == old(self).snakes_seq().len(),
            ids_distinct(old(self).snakes_seq()),
        ensures
            final(self).snakes_seq().len() + hits@.len() == old(self).snakes_seq().len(),
            forall|i: int|
                0 <= i < flags@.len() && !(#[trigger] flags@[i]) ==> exists|k: int|
                    0 <= k < final(self).snakes_seq().len() && final(self).snakes_seq()[k] == old(
                        self,
                    ).snakes_seq()[i],
            forall|i: int|
                0 <= i < flags@.len() && (#[trigger] flags@[i]) ==> exists|k: int|
                    0 <= k < hits@.len() && hits@[k] == old(self).snakes_seq()[i],
            forall|k: int|
                0 <= k < final(self).snakes_seq().len() ==> #[trigger] drawn_from(
                    final(self).snakes_seq(),
                    old(self).snakes_seq(),
                    flags@,
                    false,
                    k,
                ),
            forall|k: int|
                0 <= k < hits@.len() ==> #[trigger] drawn_from(
                    hits@,
                    old(self).snakes_seq(),
                    flags@,
                    true,
                    k,
                ),
            ids_distinct(final(self).snakes_seq()),
            ids_distinct(hits@),
            final(self).next_id_spec() == old(self).next_id_spec(),
            final(self).fruits == old(self).fruits,
            final(self).directions == old(self).directions,
            final(self).width == old(self).width,
            final(self).height == old(self).height,
    {
        let ghost pre_entries = old(self).snakes.entries();
        let n = self.snakes.len();
        let mut hits: Vec<(SnakeID, Snake)> = Vec::new();
        let ghost mut kept: Seq<(SnakeID, Snake)> = Seq::empty();
        let ghost mut kept_src: Seq<int> = Seq::empty();
        let ghost mut hits_src: Seq<int> = Seq::empty();
        let ghost mut place: Seq<int> = Seq::empty();
        let mut i: usize = 0;
        proof {
            assert(self.snakes.entries() =~= pre_entries.subrange(0, n as int) + kept);
        }
        while i < n
            invariant
                i <= n,
                n == pre_entries.len(),
                flags@.len() == n,
                ids_distinct(pre_entries),
                self.snakes.entries() == pre_entries.subrange(i as int, n as int) + kept,
                kept.len() + hits@.len() == i,
                kept_src.len() == kept.len(),
                hits_src.len() == hits@.len(),
                place.len() == i,
                self.snakes.counter_spec() == old(self).snakes.counter_spec(),
                self.fruits == old(self).fruits,
                self.directions == old(self).directions,
                self.width == old(self).width,
                self.height == old(self).height,
                forall|k: int|
                    0 <= k < kept.len() ==> 0 <= (#[trigger] kept_src[k]) < i
                        && !flags@[kept_src[k]] && kept[k] == pre_entries[kept_src[k]],
                forall|k: int|
                    0 <= k < hits@.len() ==> 0 <= (#[trigger] hits_src[k]) < i
                        && flags@[hits_src[k]] && hits@[k] == pre_entries[hits_src[k]],
                forall|ii: int|
                    0 <= ii < i && !(#[trigger] flags@[ii]) ==> 0 <= place[ii] < kept.len()
                        && kept[place[ii]] == pre_entries[ii],
                forall|ii: int|
                    0 <= ii < i && (#[trigger] flags@[ii]) ==> 0 <= place[ii] < hits@.len()
                        && hits@[place[ii]] == pre_entries[ii],
                forall|k1: int, k2: int|
                    0 <= k1 < k2 < kept.len() ==> #[trigger] kept_src[k1] < #[trigger] kept_src[k2],
                forall|k1: int, k2: int|
                    0 <= k1 < k2 < hits@.len() ==> #[trigger] hits_src[k1] < #[trigger] hits_src[k2],
            decreases n - i,
        {
            let e = self.snakes.pop_front();
            proof {
                assert(e == pre_entries[i as int]);
                assert(self.snakes.entries() =~= pre_entries.subrange(i + 1, n as int) + kept);
            }
            if flags[i] {
                hits.push(e);
                proof {
                    hits_src = hits_src.push(i as int);
                    place = place.push(hits@.len() - 1);
                }
            } else {
                self.snakes.push_back(e);
                proof {
                    kept = kept.push(pre_entries[i as int]);
                    kept_src = kept_src.push(i as int);
                    place = place.push(kept.len() - 1);
                    assert(self.snakes.entries() =~= pre_entries.subrange(i + 1, n as int) + kept);
                }
            }
            i = i + 1;
        }
        proof {
            assert(self.snakes.entries() =~= kept);
            assert forall|ii: int| 0 <= ii < flags@.len() && !(#[trigger] flags@[ii]) implies exists|
                k: int,
            | 0 <= k < kept.len() && kept[k] == pre_entries[ii] by {
                assert(0 <= place[ii] < kept.len() && kept[place[ii]] == pre_entries[ii]);
            }
            assert forall|ii: int| 0 <= ii < flags@.len() && (#[trigger] flags@[ii]) implies exists|
                k: int,
            | 0 <= k < hits@.len() && hits@[k] == pre_entries[ii] by {
                assert(0 <= place[ii] < hits@.len() && hits@[place[ii]] == pre_entries[ii]);
            }
            assert(self.snakes.entries() == kept);
            assert forall|k: int| 0 <= k < kept.len() implies #[trigger] drawn_from(
                self.snakes.entries(),
                pre_entries,
                flags@,
                false,
                k,
            ) by {
                assert(0 <= kept_src[k] < flags@.len() && !flags@[kept_src[k]]
                    && self.snakes.entries()[k] == pre_entries[kept_src[k]]);
            }
            assert forall|k: int| 0 <= k < hits@.len() implies #[trigger] drawn_from(
                hits@,
                pre_entries,
                flags@,
                true,
                k,
            ) by {
                assert(0 <= hits_src[k] < flags@.len() && flags@[hits_src[k]] && hits@[k]
                    == pre_entries[hits_src[k]]);
            }
            assert forall|a: int, b: int| 0 <= a < b < kept.len() implies (#[trigger] kept[a]).0
                != (#[trigger] kept[b]).0 by {
                assert(kept[a] == pre_entries[kept_src[a]]);
                assert(kept[b] == pre_entries[kept_src[b]]);
                assert(kept_src[a] < kept_src[b]);
            }
            assert forall|a: int, b: int| 0 <= a < b < hits@.len() implies (#[trigger] hits@[a]).0
                != (#[trigger] hits@[b]).0 by {
                assert(hits@[a] == pre_entries[hits_src[a]]);
                assert(hits@[b] == pre_entries[hits_src[b]]);
                assert(hits_src[a] < hits_src[b]);
            }
        }
        hits
    }

    /// Drops the pending-direction entries of every snake reported in
    /// `hits`. Every other entry stays, with its direction.
    fn retain_dirs(&mut self, hits: &Vec<(SnakeID, Snake)>)
        requires
            dirs_distinct(old(self).dirs_seq()),
        ensures
            dirs_distinct(final(self).dirs_seq()),
            forall|id: SnakeID|
                #[trigger] dirs_has(final(self).dirs_seq(), id) <==> dirs_has(
                    old(self).dirs_seq(),
                    id,
                ) && !has_id(hits@, id),
            forall|id: SnakeID|
                dirs_has(final(self).dirs_seq(), id) ==> #[trigger] dir_lookup(
                    final(self).dirs_seq(),
                    id,
                ) == dir_lookup(old(self).dirs_seq(), id),
            final(self).snakes == old(self).snakes,
            final(self).fruits == old(self).fruits,
            final(self).width == old(self).width,
            final(self).height == old(self).height,
    {
        let ghost pre_dirs = old(self).dirs_seq();
        let m = self.directions.len();
        let ghost mut kept: Seq<(SnakeID, Direction)> = Seq::empty();
        let ghost mut kept_src: Seq<int> = Seq::empty();
        let ghost mut place: Seq<int> = Seq::empty();
        let mut t: usize = 0;
        proof {
            assert(self.directions@ =~= pre_dirs.subrange(0, m as int) + kept);
        }
        while t < m
            invariant
                t <= m,
                m == pre_dirs.len(),
                dirs_distinct(pre_dirs),
                self.directions@ == pre_dirs.subrange(t as int, m as int) + kept,
                kept_src.len() == kept.len(),
                place.len() == t,
                self.snakes == old(self).snakes,
                self.fruits == old(self).fruits,
                self.width == old(self).width,
                self.height == old(self).height,
                forall|k: int|
                    0 <= k < kept.len() ==> 0 <= (#[trigger] kept_src[k]) < t && kept[k]
                        == pre_dirs[kept_src[k]] && !has_id(hits@, kept[k].0),
                forall|tt: int|
                    0 <= tt < t && !has_id(hits@, (#[trigger] pre_dirs[tt]).0) ==> 0 <= place[tt]
                        < kept.len() && kept[place[tt]] == pre_dirs[tt],
                forall|k1: int, k2: int|
                    0 <= k1 < k2 < kept.len() ==> #[trigger] kept_src[k1] < #[trigger] kept_src[k2],
            decreases m - t,
        {
            let e = self.directions.remove(0);
            proof {
                assert(e == pre_dirs[t as int]);
                assert(self.directions@ =~= pre_dirs.subrange(t + 1, m as int) + kept);
            }
            if !hits_contain(hits, e.0) {
                self.directions.push(e);
                proof {
                    kept = kept.push(pre_dirs[t as int]);
                    kept_src = kept_src.push(t as int);
                    place = place.push(kept.len() - 1);
                    assert(self.directions@ =~= pre_dirs.subrange(t + 1, m as int) + kept);
                }
            } else {
                proof {
                    place = place.push(-1);
                }
            }
            t = t + 1;
        }
        proof {
            assert(self.directions@ =~= kept);
            assert forall|a: int, b: int| 0 <= a < b < kept.len() implies (#[trigger] kept[a]).0
                != (#[trigger] kept[b]).0 by {
                assert(kept[a] == pre_dirs[kept_src[a]]);
                assert(kept[b] == pre_dirs[kept_src[b]]);
                assert(kept_src[a] < kept_src[b]);
            }
            assert forall|id: SnakeID| #[trigger] dirs_has(self.directions@, id) == (dirs_has(
                pre_dirs,
                id,
            ) && !has_id(hits@, id)) by {
                if dirs_has(self.directions@, id) {
                    let k = choose|k: int|
                        0 <= k < self.directions@.len() && (#[trigger] self.directions@[k]).0 == id;
                    assert(kept[k] == pre_dirs[kept_src[k]]);
                    assert(pre_dirs[kept_src[k]].0 == id);
                    assert(!has_id(hits@, id));
                }
                if dirs_has(pre_dirs, id) && !has_id(hits@, id) {
                    let tt = choose|tt: int|
                        0 <= tt < pre_dirs.len() && (#[trigger] pre_dirs[tt]).0 == id;
                    assert(kept[place[tt]] == pre_dirs[tt]);
                    assert(kept[place[tt]].0 == id);
                    assert(dirs_has(kept, id));
                }
            }
            assert forall|id: SnakeID| dirs_has(self.directions@, id) implies #[trigger] dir_lookup(
                self.directions@,
                id,
            ) == dir_lookup(pre_dirs, id) by {
                let k = choose|k: int|
                    0 <= k < self.directions@.len() && (#[trigger] self.directions@[k]).0 == id;
                lemma_dir_lookup_at(self.directions@, k);
                assert(kept[k] == pre_dirs[kept_src[k]]);
                lemma_dir_lookup_at(pre_dirs, kept_src[k]);
            }
        }
    }


    /// Accepts a new player: spawns a snake of the fixed starting length
    /// at the grid centre, moving in the fixed spawn direction, under a
    /// fresh identifier, and returns the join handshake carrying the grid
    /// dimensions and that identifier.
    pub fn join(&mut self, color: Color) -> (p: JoinPacket)
        requires
            old(self).wf(),
            old(self).next_id_spec() < u32::MAX,
        ensures
            final(self).wf(),
            p.width == old(self).width_spec(),
            p.height == old(self).height_spec(),
            p.id.value() == old(self).next_id_spec(),
            !has_id(old(self).snakes_seq(), p.id),
            has_id(final(self).snakes_seq(), p.id),
            final(self).next_id_spec() == old(self).next_id_spec() + 1,
            final(self).width_spec() == old(self).width_spec(),
            final(self).height_spec() == old(self).height_spec(),
            final(self).fruits_seq() == old(self).fruits_seq(),
            final(self).snakes_seq().len() == old(self).snakes_seq().len() + 1,
            ({
                let s = final(self).snakes_seq().last();
                &&& s.0 == p.id
                &&& s.1.head == (Point {
                    x: old(self).width_spec() / 2,
                    y: old(self).height_spec() / 2,
                })
                &&& s.1.tail@.len() == SPAWN_LENGTH
                &&& s.1.color == color
            }),
            forall|k: int|
                0 <= k < old(self).snakes_seq().len() ==> #[trigger] final(self).snakes_seq()[k]
                    == old(self).snakes_seq()[k],
            dirs_has(final(self).dirs_seq(), p.id),
            dir_lookup(final(self).dirs_seq(), p.id) == SPAWN_DIRECTION,
    {
        let head = Point::new(self.width / 2, self.height / 2);
        proof {
            assert(in_interior(head, self.width, self.height));
            assert(head.x + SPAWN_LENGTH <= u32::MAX);
        }
        let snake = Snake::from_dir_len(head, Direction::Left, SPAWN_LENGTH, color);
        let id = self.add_snake(snake, Direction::Left);
        let p = JoinPacket { width: self.width, height: self.height, id };
        proof {
            assert(self.snakes_seq().last() == (id, snake));
            assert(has_id(self.snakes_seq(), id));
        }
        p
    }

    /// A snapshot of the live registry and the fruit field, for the
    /// per-tick broadcast.
    pub fn snapshot(&self) -> (p: StatePacket)
        ensures
            p.snakes@.len() == self.snakes_seq().len(),
            forall|i: int|
                0 <= i < p.snakes@.len() ==> (#[trigger] p.snakes@[i]).0 == self.snakes_seq()[i].0
                    && crate::snakes::snake_like(p.snakes@[i].1, self.snakes_seq()[i].1),
            p.fruits@ == self.fruits_seq(),
    {
        StatePacket { snakes: self.snakes.iter(), fruits: self.fruits.iter() }
    }

    /// Whether the cell lies outside the playable interior.
    fn out_of_world(&self, point: Point) -> (r: bool)
        ensures
            r == out_of_world_spec(point, self.width_spec(), self.height_spec()),
    {
        point.x == 0 || point.x == self.width || point.y == 0 || point.y == self.height
    }

    /// Drops the pending-direction entry of `id`, if any. Nothing else
    /// changes.
    fn remove_dir(&mut self, id: SnakeID)
        requires
            dirs_distinct(old(self).dirs_seq()),
        ensures
            dirs_distinct(final(self).dirs_seq()),
            !dirs_has(final(self).dirs_seq(), id),
            forall|other: SnakeID|
                other != id ==> #[trigger] dirs_has(final(self).dirs_seq(), other) == dirs_has(
                    old(self).dirs_seq(),
                    other,
                ),
            forall|other: SnakeID|
                other != id && dirs_has(final(self).dirs_seq(), other) ==> #[trigger] dir_lookup(
                    final(self).dirs_seq(),
                    other,
                ) == dir_lookup(old(self).dirs_seq(), other),
            final(self).snakes == old(self).snakes,
            final(self).fruits == old(self).fruits,
            final(self).width == old(self).width,
            final(self).height == old(self).height,
    {
        let n = self.directions.len();
        let mut i: usize = 0;
        while i < n
            invariant
                i <= n,
                n == self.dirs_seq().len(),
                *self == *old(self),
                dirs_distinct(self.dirs_seq()),
                forall|j: int| 0 <= j < i ==> (#[trigger] self.dirs_seq()[j]).0 != id,
            decreases n - i,
        {
            if self.directions[i].0 == id {
                self.directions.remove(i);
                proof {
                    lemma_dirs_remove(old(self).dirs_seq(), i as int, id);
                    assert forall|other: SnakeID|
                        other != id && dirs_has(self.dirs_seq(), other) implies #[trigger] dir_lookup(
                        self.dirs_seq(),
                        other,
                    ) == dir_lookup(old(self).dirs_seq(), other) by {
                        let post = self.dirs_seq();
                        let j = choose|j: int|
                            0 <= j < post.len() && (#[trigger] post[j]).0 == other;
                        lemma_dir_lookup_at(post, j);
                        if j < i {
                            assert(post[j] == old(self).dirs_seq()[j]);
                            lemma_dir_lookup_at(old(self).dirs_seq(), j);
                        } else {
                            assert(post[j] == old(self).dirs_seq()[j + 1]);
                            lemma_dir_lookup_at(old(self).dirs_seq(), j + 1);
                        }
                    }
                }
                return ;
            }
            i = i + 1;
        }
    }
}


/// Glue for one tick, part one: the split into survivors and eliminations
/// follows the hit flags entry by entry.
#[verifier::rlimit(60)]
proof fn lemma_tick_mappings(
    pre_entries: Seq<(SnakeID, Snake)>,
    fed_entries: Seq<(SnakeID, Snake)>,
    post_entries: Seq<(SnakeID, Snake)>,
    hits: Seq<(SnakeID, Snake)>,
    flags: Seq<bool>,
    moved: Seq<(SnakeID, Snake)>,
    grew: Seq<bool>,
    w: u32,
    h: u32,
)
    requires
        ids_distinct(pre_entries),
        moved.len() == pre_entries.len(),
        grew.len() == moved.len(),
        forall|i: int| 0 <= i < moved.len() ==> (#[trigger] moved[i]).0 == pre_entries[i].0,
        fed_entries.len() == moved.len(),
        forall|k: int|
            0 <= k < moved.len() ==> (#[trigger] fed_entries[k]).0 == moved[k].0 && is_fed(
                fed_entries[k].1,
                moved[k].1,
                grew[k],
            ),
        flags.len() == moved.len(),
        forall|k: int| 0 <= k < moved.len() ==> #[trigger] flags[k] == hit_at(moved, k, w, h),
        forall|i: int|
            0 <= i < flags.len() && !(#[trigger] flags[i]) ==> exists|k: int|
                0 <= k < post_entries.len() && post_entries[k] == fed_entries[i],
        forall|i: int|
            0 <= i < flags.len() && (#[trigger] flags[i]) ==> exists|k: int|
                0 <= k < hits.len() && hits[k] == fed_entries[i],
        forall|k: int|
            0 <= k < post_entries.len() ==> #[trigger] drawn_from(
                post_entries,
                fed_entries,
                flags,
                false,
                k,
            ),
        forall|k: int|
            0 <= k < hits.len() ==> #[trigger] drawn_from(hits, fed_entries, flags, true, k),
    ensures
        forall|i: int|
            0 <= i < moved.len() && !(#[trigger] hit_at(moved, i, w, h)) ==> fed_into(
                post_entries,
                moved,
                grew,
                i,
            ),
        forall|i: int|
            0 <= i < moved.len() && (#[trigger] hit_at(moved, i, w, h)) ==> fed_into(
                hits,
                moved,
                grew,
                i,
            ),
        forall|k: int|
            0 <= k < post_entries.len() ==> #[trigger] fed_origin(
                post_entries,
                moved,
                grew,
                w,
                h,
                false,
                k,
            ),
        forall|k: int|
            0 <= k < hits.len() ==> #[trigger] fed_origin(hits, moved, grew, w, h, true, k),
{
    assert forall|i: int|
        0 <= i < moved.len() && !(#[trigger] hit_at(moved, i, w, h)) implies fed_into(
        post_entries,
        moved,
        grew,
        i,
    ) by {
        assert(!flags[i]);
        let k = choose|k: int|
            0 <= k < post_entries.len() && #[trigger] post_entries[k] == fed_entries[i];
        assert(post_entries[k].0 == moved[i].0 && is_fed(post_entries[k].1, moved[i].1, grew[i]));
    }
    assert forall|i: int|
        0 <= i < moved.len() && (#[trigger] hit_at(moved, i, w, h)) implies fed_into(
        hits,
        moved,
        grew,
        i,
    ) by {
        assert(flags[i]);
        let k = choose|k: int| 0 <= k < hits.len() && #[trigger] hits[k] == fed_entries[i];
        assert(hits[k].0 == moved[i].0 && is_fed(hits[k].1, moved[i].1, grew[i]));
    }
    assert forall|k: int| 0 <= k < post_entries.len() implies #[trigger] fed_origin(
        post_entries,
        moved,
        grew,
        w,
        h,
        false,
        k,
    ) by {
        assert(drawn_from(post_entries, fed_entries, flags, false, k));
        let i = choose|i: int|
            #![trigger flags[i]]
            0 <= i < flags.len() && flags[i] == false && post_entries[k] == fed_entries[i];
        assert(!hit_at(moved, i, w, h));
        assert(post_entries[k].0 == moved[i].0 && is_fed(post_entries[k].1, moved[i].1, grew[i]));
    }
    assert forall|k: int| 0 <= k < hits.len() implies #[trigger] fed_origin(
        hits,
        moved,
        grew,
        w,
        h,
        true,
        k,
    ) by {
        assert(drawn_from(hits, fed_entries, flags, true, k));
        let i = choose|i: int|
            #![trigger flags[i]]
            0 <= i < flags.len() && flags[i] == true && hits[k] == fed_entries[i];
        assert(hit_at(moved, i, w, h));
        assert(hits[k].0 == moved[i].0 && is_fed(hits[k].1, moved[i].1, grew[i]));
    }
}

/// Glue for one tick, part two: a snake is in the post-tick registry
/// exactly when it was live and not eliminated, and no surviving
/// identifier is reported among the eliminations.
#[verifier::rlimit(60)]
proof fn lemma_tick_membership(
    pre_entries: Seq<(SnakeID, Snake)>,
    fed_entries: Seq<(SnakeID, Snake)>,
    post_entries: Seq<(SnakeID, Snake)>,
    hits: Seq<(SnakeID, Snake)>,
    flags: Seq<bool>,
    moved: Seq<(SnakeID, Snake)>,
    grew: Seq<bool>,
    w: u32,
    h: u32,
)
    requires
        ids_distinct(pre_entries),
        moved.len() == pre_entries.len(),
        grew.len() == moved.len(),
        forall|i: int| 0 <= i < moved.len() ==> (#[trigger] moved[i]).0 == pre_entries[i].0,
        fed_entries.len() == moved.len(),
        forall|k: int|
            0 <= k < moved.len() ==> (#[trigger] fed_entries[k]).0 == moved[k].0 && is_fed(
                fed_entries[k].1,
                moved[k].1,
                grew[k],
            ),
        flags.len() == moved.len(),
        forall|k: int| 0 <= k < moved.len() ==> #[trigger] flags[k] == hit_at(moved, k, w, h),
        forall|i: int|
            0 <= i < flags.len() && !(#[trigger] flags[i]) ==> exists|k: int|
                0 <= k < post_entries.len() && post_entries[k] == fed_entries[i],
        forall|k: int|
            0 <= k < post_entries.len() ==> #[trigger] drawn_from(
                post_entries,
                fed_entries,
                flags,
                false,
                k,
            ),
        forall|k: int|
            0 <= k < hits.len() ==> #[trigger] drawn_from(hits, fed_entries, flags, true, k),
    ensures
        forall|id: SnakeID|
            #[trigger] has_id(post_entries, id) <==> has_id(pre_entries, id) && !eliminated(
                moved,
                id,
                w,
                h,
            ),
        forall|id: SnakeID| #[trigger] has_id(post_entries, id) ==> !has_id(hits, id),
{
    assert forall|id: SnakeID| #[trigger] has_id(post_entries, id) == (has_id(pre_entries, id)
        && !eliminated(moved, id, w, h)) by {
        if has_id(post_entries, id) {
            let k = choose|k: int|
                0 <= k < post_entries.len() && (#[trigger] post_entries[k]).0 == id;
            assert(drawn_from(post_entries, fed_entries, flags, false, k));
            let i = choose|i: int|
                #![trigger flags[i]]
                0 <= i < flags.len() && flags[i] == false && post_entries[k] == fed_entries[i];
            assert(pre_entries[i].0 == id);
            assert(has_id(pre_entries, id));
            if eliminated(moved, id, w, h) {
                let j = choose|j: int|
                    0 <= j < moved.len() && (#[trigger] moved[j]).0 == id && hit_at(moved, j, w, h);
                if j != i {
                    assert(pre_entries[i].0 != pre_entries[j].0);
                }
                assert(flags[j]);
                assert(false);
            }
        }
        if has_id(pre_entries, id) && !eliminated(moved, id, w, h) {
            let i = choose|i: int|
                0 <= i < pre_entries.len() && (#[trigger] pre_entries[i]).0 == id;
            assert(moved[i].0 == id);
            assert(!hit_at(moved, i, w, h));
            assert(!flags[i]);
            let k = choose|k: int|
                0 <= k < post_entries.len() && #[trigger] post_entries[k] == fed_entries[i];
            assert(post_entries[k].0 == id);
            assert(has_id(post_entries, id));
        }
    }
    assert forall|id: SnakeID| #[trigger] has_id(post_entries, id) implies !has_id(hits, id) by {
        if has_id(hits, id) {
            let k1 = choose|k: int| 0 <= k < hits.len() && (#[trigger] hits[k]).0 == id;
            assert(drawn_from(hits, fed_entries, flags, true, k1));
            let i1 = choose|i: int|
                #![trigger flags[i]]
                0 <= i < flags.len() && flags[i] == true && hits[k1] == fed_entries[i];
            let k2 = choose|k: int|
                0 <= k < post_entries.len() && (#[trigger] post_entries[k]).0 == id;
            assert(drawn_from(post_entries, fed_entries, flags, false, k2));
            let i2 = choose|i: int|
                #![trigger flags[i]]
                0 <= i < flags.len() && flags[i] == false && post_entries[k2] == fed_entries[i];
            if i1 != i2 {
                assert(fed_entries[i1].0 != fed_entries[i2].0);
            } else {
                assert(flags[i1] != flags[i2]);
            }
            assert(false);
        }
    }
}


/// Every fruit field in the feeding chain has the size of the first one:
/// each eaten fruit is replaced one for one.
pub proof fn lemma_feeding_preserves_fruit_count(
    moved: Seq<(SnakeID, Snake)>,
    grew: Seq<bool>,
    states: Seq<Seq<Point>>,
    width: u32,
    height: u32,
    j: int,
)
    requires
        feeding_ok(moved, grew, states, width, height),
        0 <= j < states.len(),
    ensures
        states[j].len() == states[0].len(),
    decreases j,
{
    if j > 0 {
        lemma_feeding_preserves_fruit_count(moved, grew, states, width, height, j - 1);
        assert(feeding_step(moved, grew, states, width, height, j - 1));
        if grew[j - 1] {
            assert(states[j].len() == states[j - 1].len());
        }
    }
}

/// Boundary elimination: a snake whose computed next head lands on the
/// zero edge or the far edge of the grid is removed from the registry by
/// the end of that tick, and the eliminations report it, with its moved
/// head.
pub proof fn lemma_boundary_elimination(
    pre_snakes: Seq<(SnakeID, Snake)>,
    pre_fruits: Seq<Point>,
    pre_dirs: Seq<(SnakeID, Direction)>,
    post_snakes: Seq<(SnakeID, Snake)>,
    post_fruits: Seq<Point>,
    post_dirs: Seq<(SnakeID, Direction)>,
    hits: Seq<(SnakeID, Snake)>,
    width: u32,
    height: u32,
    i: int,
)
    requires
        ids_distinct(pre_snakes),
        update_rel(
            pre_snakes,
            pre_fruits,
            pre_dirs,
            post_snakes,
            post_fruits,
            post_dirs,
            hits,
            width,
            height,
        ),
        0 <= i < pre_snakes.len(),
        out_of_world_spec(
            pre_snakes[i].1.head.step_spec(dir_lookup(pre_dirs, pre_snakes[i].0)),
            width,
            height,
        ),
    ensures
        !has_id(post_snakes, pre_snakes[i].0),
        exists|k: int|
            0 <= k < hits.len() && (#[trigger] hits[k]).0 == pre_snakes[i].0 && hits[k].1.head
                == pre_snakes[i].1.head.step_spec(dir_lookup(pre_dirs, pre_snakes[i].0)),
{
    let (moved, grew, states) = choose|
        moved: Seq<(SnakeID, Snake)>,
        grew: Seq<bool>,
        states: Seq<Seq<Point>>,
    |
        update_rel_with(
            pre_snakes,
            pre_fruits,
            pre_dirs,
            post_snakes,
            post_fruits,
            post_dirs,
            hits,
            width,
            height,
            moved,
            grew,
            states,
        );
    let id = pre_snakes[i].0;
    assert(moved[i].1.head == pre_snakes[i].1.head.step_spec(dir_lookup(pre_dirs, id)));
    assert(hit_at(moved, i, width, height));
    assert(eliminated(moved, id, width, height)) by {
        assert(moved[i].0 == id && hit_at(moved, i, width, height));
    }
    assert(!has_id(post_snakes, id));
    assert(fed_into(hits, moved, grew, i));
    let k = choose|k: int|
        #![trigger hits[k]]
        0 <= k < hits.len() && hits[k].0 == moved[i].0 && is_fed(hits[k].1, moved[i].1, grew[i]);
    assert(hits[k].0 == id && hits[k].1.head == moved[i].1.head);
}

/// Cross-snake collision: a snake whose computed next head equals a cell
/// of another snake's post-move tail is eliminated in the same tick.
pub proof fn lemma_cross_snake_collision(
    pre_snakes: Seq<(SnakeID, Snake)>,
    pre_fruits: Seq<Point>,
    pre_dirs: Seq<(SnakeID, Direction)>,
    post_snakes: Seq<(SnakeID, Snake)>,
    post_fruits: Seq<Point>,
    post_dirs: Seq<(SnakeID, Direction)>,
    hits: Seq<(SnakeID, Snake)>,
    width: u32,
    height: u32,
    a: int,
    b: int,
)
    requires
        ids_distinct(pre_snakes),
        update_rel(
            pre_snakes,
            pre_fruits,
            pre_dirs,
            post_snakes,
            post_fruits,
            post_dirs,
            hits,
            width,
            height,
        ),
        0 <= a < pre_snakes.len(),
        0 <= b < pre_snakes.len(),
        a != b,
        pre_snakes[b].1.tail@.len() >= 1,
        (seq![pre_snakes[b].1.head] + pre_snakes[b].1.tail@.drop_last()).contains(
            pre_snakes[a].1.head.step_spec(dir_lookup(pre_dirs, pre_snakes[a].0)),
        ),
    ensures
        !has_id(post_snakes, pre_snakes[a].0),
        exists|k: int| 0 <= k < hits.len() && (#[trigger] hits[k]).0 == pre_snakes[a].0,
{
    let (moved, grew, states) = choose|
        moved: Seq<(SnakeID, Snake)>,
        grew: Seq<bool>,
        states: Seq<Seq<Point>>,
    |
        update_rel_with(
            pre_snakes,
            pre_fruits,
            pre_dirs,
            post_snakes,
            post_fruits,
            post_dirs,
            hits,
            width,
            height,
            moved,
            grew,
            states,
        );
    let id = pre_snakes[a].0;
    assert(moved[a].1.head == pre_snakes[a].1.head.step_spec(dir_lookup(pre_dirs, id)));
    assert(moved[b].1.tail@ == seq![pre_snakes[b].1.head] + pre_snakes[b].1.tail@.drop_last());
    assert(hits_other_tail(moved, a)) by {
        assert(moved[b].1.tail@.contains(moved[a].1.head));
    }
    assert(hit_at(moved, a, width, height));
    assert(eliminated(moved, id, width, height)) by {
        assert(moved[a].0 == id && hit_at(moved, a, width, height));
    }
    assert(!has_id(post_snakes, id));
    assert(fed_into(hits, moved, grew, a));
    let k = choose|k: int|
        #![trigger hits[k]]
        0 <= k < hits.len() && hits[k].0 == moved[a].0 && is_fed(hits[k].1, moved[a].1, grew[a]);
    assert(hits[k].0 == id);
}

/// Movement without growth: a surviving snake whose body length did not
/// change has exactly the previous body shifted one cell toward the head:
/// the head moved one step in its pending direction, the old head became
/// the first tail segment, and every other segment took its predecessor's
/// place.
pub proof fn lemma_movement_without_growth(
    pre_snakes: Seq<(SnakeID, Snake)>,
    pre_fruits: Seq<Point>,
    pre_dirs: Seq<(SnakeID, Direction)>,
    post_snakes: Seq<(SnakeID, Snake)>,
    post_fruits: Seq<Point>,
    post_dirs: Seq<(SnakeID, Direction)>,
    hits: Seq<(SnakeID, Snake)>,
    width: u32,
    height: u32,
    i: int,
    k: int,
)
    requires
        ids_distinct(pre_snakes),
        update_rel(
            pre_snakes,
            pre_fruits,
            pre_dirs,
            post_snakes,
            post_fruits,
            post_dirs,
            hits,
            width,
            height,
        ),
        0 <= i < pre_snakes.len(),
        0 <= k < post_snakes.len(),
        post_snakes[k].0 == pre_snakes[i].0,
        post_snakes[k].1.tail@.len() == pre_snakes[i].1.tail@.len(),
        pre_snakes[i].1.tail@.len() >= 1,
    ensures
        post_snakes[k].1.head == pre_snakes[i].1.head.step_spec(
            dir_lookup(pre_dirs, pre_snakes[i].0),
        ),
        post_snakes[k].1.tail@[0] == pre_snakes[i].1.head,
        forall|t: int|
            1 <= t < pre_snakes[i].1.tail@.len() ==> #[trigger] post_snakes[k].1.tail@[t]
                == pre_snakes[i].1.tail@[t - 1],
{
    let (moved, grew, states) = choose|
        moved: Seq<(SnakeID, Snake)>,
        grew: Seq<bool>,
        states: Seq<Seq<Point>>,
    |
        update_rel_with(
            pre_snakes,
            pre_fruits,
            pre_dirs,
            post_snakes,
            post_fruits,
            post_dirs,
            hits,
            width,
            height,
            moved,
            grew,
            states,
        );
    assert(fed_origin(post_snakes, moved, grew, width, height, false, k));
    let i2 = choose|i2: int|
        #![trigger moved[i2]]
        0 <= i2 < moved.len() && post_snakes[k].0 == moved[i2].0 && hit_at(
            moved,
            i2,
            width,
            height,
        ) == false && is_fed(post_snakes[k].1, moved[i2].1, grew[i2]);
    if i2 != i {
        assert(pre_snakes[i2].0 != pre_snakes[i].0);
        assert(false);
    }
    assert(moved[i].1.tail@ == seq![pre_snakes[i].1.head] + pre_snakes[i].1.tail@.drop_last());
    assert(moved[i].1.tail@.len() == pre_snakes[i].1.tail@.len());
    if grew[i] {
        assert(post_snakes[k].1.tail@.len() == moved[i].1.tail@.len() + 1);
        assert(false);
    }
    assert(post_snakes[k].1.tail@ == moved[i].1.tail@);
    assert(post_snakes[k].1.tail@[0] == pre_snakes[i].1.head);
    assert forall|t: int| 1 <= t < pre_snakes[i].1.tail@.len() implies #[trigger] post_snakes[k].1.tail@[t]
        == pre_snakes[i].1.tail@[t - 1] by {
        assert(moved[i].1.tail@[t] == pre_snakes[i].1.tail@.drop_last()[t - 1]);
    }
}

/// Growth: a surviving snake whose body length changed gained exactly one
/// tail segment, a duplicate of its tail end; its head moved one step in
/// its pending direction, and some fruit field of this tick, of the fixed
/// fruit count, held a fruit exactly at the new head position, which was
/// consumed and replaced.
pub proof fn lemma_growth_consumed_fruit(
    pre_snakes: Seq<(SnakeID, Snake)>,
    pre_fruits: Seq<Point>,
    pre_dirs: Seq<(SnakeID, Direction)>,
    post_snakes: Seq<(SnakeID, Snake)>,
    post_fruits: Seq<Point>,
    post_dirs: Seq<(SnakeID, Direction)>,
    hits: Seq<(SnakeID, Snake)>,
    width: u32,
    height: u32,
    i: int,
    k: int,
)
    requires
        ids_distinct(pre_snakes),
        update_rel(
            pre_snakes,
            pre_fruits,
            pre_dirs,
            post_snakes,
            post_fruits,
            post_dirs,
            hits,
            width,
            height,
        ),
        0 <= i < pre_snakes.len(),
        0 <= k < post_snakes.len(),
        post_snakes[k].0 == pre_snakes[i].0,
        post_snakes[k].1.tail@.len() != pre_snakes[i].1.tail@.len(),
        pre_snakes[i].1.tail@.len() >= 1,
    ensures
        post_snakes[k].1.tail@.len() == pre_snakes[i].1.tail@.len() + 1,
        post_snakes[k].1.head == pre_snakes[i].1.head.step_spec(
            dir_lookup(pre_dirs, pre_snakes[i].0),
        ),
        post_snakes[k].1.tail@.last() == post_snakes[k].1.tail@[post_snakes[k].1.tail@.len() - 2],
        exists|fruits_then: Seq<Point>, fruits_after: Seq<Point>|
            fruits_then.len() == pre_fruits.len() && #[trigger] fruit_replaced(
                fruits_then,
                post_snakes[k].1.head,
                fruits_after,
                width,
                height,
            ),
{
    let (moved, grew, states) = choose|
        moved: Seq<(SnakeID, Snake)>,
        grew: Seq<bool>,
        states: Seq<Seq<Point>>,
    |
        update_rel_with(
            pre_snakes,
            pre_fruits,
            pre_dirs,
            post_snakes,
            post_fruits,
            post_dirs,
            hits,
            width,
            height,
            moved,
            grew,
            states,
        );
    assert(fed_origin(post_snakes, moved, grew, width, height, false, k));
    let i2 = choose|i2: int|
        #![trigger moved[i2]]
        0 <= i2 < moved.len() && post_snakes[k].0 == moved[i2].0 && hit_at(
            moved,
            i2,
            width,
            height,
        ) == false && is_fed(post_snakes[k].1, moved[i2].1, grew[i2]);
    if i2 != i {
        assert(pre_snakes[i2].0 != pre_snakes[i].0);
        assert(false);
    }
    assert(moved[i].1.tail@ == seq![pre_snakes[i].1.head] + pre_snakes[i].1.tail@.drop_last());
    assert(moved[i].1.tail@.len() == pre_snakes[i].1.tail@.len());
    if !grew[i] {
        assert(post_snakes[k].1.tail@.len() == pre_snakes[i].1.tail@.len());
        assert(false);
    }
    assert(post_snakes[k].1.tail@ == moved[i].1.tail@.push(moved[i].1.tail@.last()));
    assert(feeding_step(moved, grew, states, width, height, i));
    assert(fruit_replaced(states[i], moved[i].1.head, states[i + 1], width, height));
    lemma_feeding_preserves_fruit_count(moved, grew, states, width, height, i);
    assert(states[0] == pre_fruits);
    assert(post_snakes[k].1.head == moved[i].1.head);
    assert(exists|fruits_then: Seq<Point>, fruits_after: Seq<Point>|
        fruits_then.len() == pre_fruits.len() && #[trigger] fruit_replaced(
            fruits_then,
            post_snakes[k].1.head,
            fruits_after,
            width,
            height,
        )) by {
        assert(states[i].len() == pre_fruits.len() && fruit_replaced(
            states[i],
            post_snakes[k].1.head,
            states[i + 1],
            width,
            height,
        ));
    }
}

/// How long the tick loop should sleep before the next tick: the target
/// period less the time the last tick took, never negative. A tick that
/// overran shortens the next sleep to zero.
pub fn tick_sleep_ms(period_ms: u64, elapsed_ms: u64) -> (r: u64)
    ensures
        r == if elapsed_ms >= period_ms {
            0u64
        } else {
            (period_ms - elapsed_ms) as u64
        },
{
    if elapsed_ms >= period_ms {
        0
    } else {
        period_ms - elapsed_ms
    }
}

/// Whether some entry of `v` carries the identifier `id`.
fn hits_contain(v: &Vec<(SnakeID, Snake)>, id: SnakeID) -> (r: bool)
    ensures
        r == has_id(v@, id),
{
    let n = v.len();
    let mut i: usize = 0;
    while i < n
        invariant
            i <= n,
            n == v@.len(),
            forall|j: int| 0 <= j < i ==> (#[trigger] v@[j]).0 != id,
        decreases n - i,
    {
        if v[i].0 == id {
            return true;
        }
        i = i + 1;
    }
    false
}

/// Whether `p` occurs among the points of `v`.
fn point_in(v: &Vec<Point>, p: Point) -> (r: bool)
    ensures
        r == v@.contains(p),
{
    let n = v.len();
    let mut i: usize = 0;
    while i < n
        invariant
            i <= n,
            n == v@.len(),
            forall|j: int| 0 <= j < i ==> v@[j] != p,
        decreases n - i,
    {
        if v[i] == p {
            return true;
        }
        i = i + 1;
    }
    false
}

/// Feeding only duplicates the tail-end cell, so the fed tail covers
/// exactly the same cells as the moved tail.
proof fn lemma_fed_tail_contains(fed: Snake, m: Snake, g: bool, p: Point)
    requires
        is_fed(fed, m, g),
        m.wf(),
    ensures
        fed.tail@.contains(p) == m.tail@.contains(p),
{
    if g {
        if fed.tail@.contains(p) {
            let idx = choose|idx: int| 0 <= idx < fed.tail@.len() && fed.tail@[idx] == p;
            if idx < m.tail@.len() {
                assert(m.tail@[idx] == p);
            } else {
                assert(fed.tail@[idx] == m.tail@.last());
                assert(m.tail@[m.tail@.len() - 1] == p);
            }
        }
        if m.tail@.contains(p) {
            let idx = choose|idx: int| 0 <= idx < m.tail@.len() && m.tail@[idx] == p;
            assert(fed.tail@[idx] == p);
        }
    }
}

/// After overwriting the entry at `i` (which carried `id`) with a new entry
/// for `id`, membership of every other identifier is unchanged.
proof fn lemma_upsert_others(
    pre: Seq<(SnakeID, Direction)>,
    post: Seq<(SnakeID, Direction)>,
    i: int,
    id: SnakeID,
    other: SnakeID,
)
    requires
        0 <= i < pre.len(),
        post.len() == pre.len(),
        post[i].0 == id,
        pre[i].0 == id,
        forall|j: int| 0 <= j < pre.len() && j != i ==> #[trigger] post[j] == pre[j],
        other != id,
    ensures
        dirs_has(post, other) == dirs_has(pre, other),
{
    if dirs_has(post, other) {
        let j = choose|j: int| 0 <= j < post.len() && (#[trigger] post[j]).0 == other;
        assert(j != i);
        assert(pre[j].0 == other);
    }
    if dirs_has(pre, other) {
        let j = choose|j: int| 0 <= j < pre.len() && (#[trigger] pre[j]).0 == other;
        assert(j != i);
        assert(post[j].0 == other);
    }
}

/// Removing the entry at `i` (which carried `id`) removes `id` from the
/// table and keeps every other identifier's membership and lookup.
proof fn lemma_dirs_remove(dirs: Seq<(SnakeID, Direction)>, i: int, id: SnakeID)
    requires
        dirs_distinct(dirs),
        0 <= i < dirs.len(),
        dirs[i].0 == id,
    ensures
        dirs_distinct(dirs.remove(i)),
        !dirs_has(dirs.remove(i), id),
        forall|other: SnakeID|
            other != id ==> #[trigger] dirs_has(dirs.remove(i), other) == dirs_has(dirs, other),
{
    let t = dirs.remove(i);
    assert forall|a: int, b: int| 0 <= a < b < t.len() implies (#[trigger] t[a]).0 != (
    #[trigger] t[b]).0 by {
        let sa = if a < i {
            a
        } else {
            a + 1
        };
        let sb = if b < i {
            b
        } else {
            b + 1
        };
        assert(t[a] == dirs[sa]);
        assert(t[b] == dirs[sb]);
    }
    assert forall|j: int| 0 <= j < t.len() implies (#[trigger] t[j]).0 != id by {
        if j < i {
            assert(t[j] == dirs[j]);
        } else {
            assert(t[j] == dirs[j + 1]);
        }
    }
    assert forall|other: SnakeID| other != id implies #[trigger] dirs_has(t, other) == dirs_has(
        dirs,
        other,
    ) by {
        if dirs_has(t, other) {
            let j = choose|j: int| 0 <= j < t.len() && (#[trigger] t[j]).0 == other;
            if j < i {
                assert(dirs[j].0 == other);
            } else {
                assert(dirs[j + 1].0 == other);
            }
        }
        if dirs_has(dirs, other) {
            let j = choose|j: int| 0 <= j < dirs.len() && (#[trigger] dirs[j]).0 == other;
            if j < i {
                assert(t[j].0 == other);
            } else {
                assert(j != i);
                assert(t[j - 1].0 == other);
            }
        }
    }
}

} // verus!
