//! Snakes, their identifiers, and the registry that owns them.

use vstd::prelude::*;

use crate::world::Point;

verus! {

/// One of the four cardinal movement directions.
#[derive(Clone, Copy, PartialEq, Eq, Structural, Debug)]
pub enum Direction {
    Up,
    Down,
    Left,
    Right,
}

impl Direction {
    /// The direction pointing the opposite way.
    pub open spec fn opposite_spec(self) -> Direction {
        match self {
            Direction::Up => Direction::Down,
            Direction::Down => Direction::Up,
            Direction::Left => Direction::Right,
            Direction::Right => Direction::Left,
        }
    }

    /// Returns the opposite direction: `Up` and `Down` swap, `Left` and
    /// `Right` swap.
    pub fn opposite(self) -> (r: Direction)
        ensures
            r == self.opposite_spec(),
    {
        match self {
            Direction::Up => Direction::Down,
            Direction::Down => Direction::Up,
            Direction::Left => Direction::Right,
            Direction::Right => Direction::Left,
        }
    }
}

/// Taking the opposite direction twice comes back to the starting
/// direction, for every one of the four directions.
pub proof fn lemma_opposite_involution(d: Direction)
    ensures
        d.opposite_spec().opposite_spec() == d,
{
}

/// An RGB colour tag a snake is rendered with. The simulation never reads
/// it; it only travels with the snake.
#[derive(Clone, Copy, PartialEq, Eq, Structural, Debug)]
pub struct Color {
    pub r: u8,
    pub g: u8,
    pub b: u8,
}

/// An opaque unique snake identifier. Fresh values are issued only by the
/// registry, from a monotonic counter that never recycles, so an
/// identifier is never reused within a process lifetime.
#[derive(Clone, Copy, PartialEq, Eq, Structural, Debug)]
pub struct SnakeID(u32);

impl SnakeID {
    /// The numeric value behind the identifier.
    pub closed spec fn value(self) -> u32 {
        self.0
    }

    /// The identifier with numeric value `v`.
    pub closed spec fn from_value(v: u32) -> SnakeID {
        SnakeID(v)
    }

    pub(crate) fn make(v: u32) -> (r: SnakeID)
        ensures
            r == SnakeID::from_value(v),
    {
        SnakeID(v)
    }

    /// The identifier as its numeric wire representation.
    pub fn as_u32(self) -> (r: u32)
        ensures
            r == self.value(),
    {
        self.0
    }
}

/// Two identifiers are equal exactly when their numeric values are.
pub proof fn lemma_id_value_injective(a: SnakeID, b: SnakeID)
    ensures
        (a == b) <==> (a.value() == b.value()),
{
}

/// The value behind `SnakeID::from_value` is the one it was built from.
pub proof fn lemma_id_from_value(v: u32)
    ensures
        SnakeID::from_value(v).value() == v,
{
}

/// A snake: a head cell, an ordered tail (index 0 is closest to the head)
/// and a colour tag.
pub struct Snake {
    pub head: Point,
    pub tail: Vec<Point>,
    pub color: Color,
}

/// The two snakes hold the same value: same head, same tail cells in the
/// same order, same colour.
pub open spec fn snake_like(a: Snake, b: Snake) -> bool {
    a.head == b.head && a.tail@ == b.tail@ && a.color == b.color
}

/// `post` is `pre` moved one cell in direction `d`: every tail segment
/// shifted one slot toward the head, the old head now the first tail
/// segment, and the head stepped by `d`.
pub open spec fn is_moved(post: Snake, pre: Snake, d: Direction) -> bool {
    &&& post.head == pre.head.step_spec(d)
    &&& post.tail@ == seq![pre.head] + pre.tail@.drop_last()
    &&& post.color == pre.color
}

/// `post` is `moved` after the feeding step: grown by one duplicated
/// tail-end segment when `grew` holds, unchanged otherwise.
pub open spec fn is_fed(post: Snake, moved: Snake, grew: bool) -> bool {
    if grew {
        post.head == moved.head && post.tail@ == moved.tail@.push(moved.tail@.last())
            && post.color == moved.color
    } else {
        snake_like(post, moved)
    }
}

impl Snake {
    /// A snake always keeps at least one tail segment.
    pub open spec fn wf(&self) -> bool {
        self.tail@.len() >= 1
    }

    /// The full body: the head followed by the tail segments.
    pub open spec fn body_spec(&self) -> Seq<Point> {
        seq![self.head] + self.tail@
    }

    /// The rearmost cell: the last tail segment, or the head of a snake
    /// without a tail.
    pub open spec fn last_spec(&self) -> Point {
        if self.tail@.len() >= 1 {
            self.tail@.last()
        } else {
            self.head
        }
    }

    /// Builds a snake whose `len` tail segments extend from `head` in the
    /// direction opposite to `dir`, one cell apart.
    pub fn from_dir_len(head: Point, dir: Direction, len: usize, color: Color) -> (r: Snake)
        requires
            1 <= len,
            dir == Direction::Down ==> head.y >= len,
            dir == Direction::Right ==> head.x >= len,
            dir == Direction::Up ==> head.y + len <= u32::MAX,
            dir == Direction::Left ==> head.x + len <= u32::MAX,
        ensures
            r.wf(),
            r.head == head,
            r.color == color,
            r.tail@.len() == len,
            forall|i: int|
                0 <= i < len ==> #[trigger] r.tail@[i] == offset_point(
                    head,
                    dir.opposite_spec(),
                    i + 1,
                ),
    {
        let opp = dir.opposite();
        let mut tail: Vec<Point> = Vec::new();
        let mut i: usize = 0;
        while i < len
            invariant
                i <= len,
                tail@.len() == i,
                dir == Direction::Down ==> head.y >= len,
                dir == Direction::Right ==> head.x >= len,
                dir == Direction::Up ==> head.y + len <= u32::MAX,
                dir == Direction::Left ==> head.x + len <= u32::MAX,
                opp == dir.opposite_spec(),
                forall|j: int|
                    0 <= j < i ==> #[trigger] tail@[j] == offset_point(head, opp, j + 1),
            decreases len - i,
        {
            let last: Point = if tail.len() == 0 {
                head
            } else {
                tail[tail.len() - 1]
            };
            let next = last.step(opp);
            tail.push(next);
            i = i + 1;
        }
        Snake { head, tail, color }
    }

    /// Appends one more segment equal to the current tail end, growing the
    /// body by one cell.
    pub fn grow(&mut self)
        requires
            old(self).wf(),
        ensures
            final(self).wf(),
            final(self).head == old(self).head,
            final(self).color == old(self).color,
            final(self).tail@ == old(self).tail@.push(old(self).tail@.last()),
    {
        let last = self.tail[self.tail.len() - 1];
        self.tail.push(last);
    }

    /// Moves the snake one cell in direction `d`: the tail shifts one slot
    /// toward the head, the old head becomes the first tail segment, and
    /// the head steps by `d`.
    pub fn advance(&mut self, d: Direction)
        requires
            old(self).wf(),
            d == Direction::Up ==> old(self).head.y >= 1,
            d == Direction::Left ==> old(self).head.x >= 1,
            d == Direction::Down ==> old(self).head.y < u32::MAX,
            d == Direction::Right ==> old(self).head.x < u32::MAX,
        ensures
            final(self).wf(),
            is_moved(*final(self), *old(self), d),
    {
        let len = self.tail.len();
        let mut idx = len;
        while idx > 1
            invariant
                1 <= len ==> 1 <= idx,
                idx <= len,
                len == self.tail@.len(),
                self.head == old(self).head,
                self.color == old(self).color,
                forall|j: int| 0 <= j < idx ==> self.tail@[j] == old(self).tail@[j],
                forall|j: int| idx <= j < len ==> self.tail@[j] == old(self).tail@[j - 1],
            decreases idx,
        {
            idx = idx - 1;
            let prev = self.tail[idx - 1];
            self.tail.set(idx, prev);
        }
        let old_head = self.head;
        self.tail.set(0, old_head);
        self.head = self.head.step(d);
        proof {
            assert(self.tail@ =~= seq![old(self).head] + old(self).tail@.drop_last());
        }
    }

    /// The head cell.
    pub fn head(&self) -> (r: Point)
        ensures
            r == self.head,
    {
        self.head
    }

    /// The tail cells, first segment closest to the head.
    pub fn tail(&self) -> (r: &Vec<Point>)
        ensures
            r@ == self.tail@,
    {
        &self.tail
    }

    /// The rearmost body cell.
    pub fn last(&self) -> (r: Point)
        ensures
            r == self.last_spec(),
    {
        if self.tail.len() >= 1 {
            self.tail[self.tail.len() - 1]
        } else {
            self.head
        }
    }

    /// The occupied cells: the head followed by the tail.
    pub fn body(&self) -> (r: Vec<Point>)
        ensures
            r@ == self.body_spec(),
    {
        let mut out: Vec<Point> = Vec::new();
        out.push(self.head);
        let n = self.tail.len();
        let mut i: usize = 0;
        while i < n
            invariant
                i <= n,
                n == self.tail@.len(),
                out@ == seq![self.head] + self.tail@.subrange(0, i as int),
            decreases n - i,
        {
            out.push(self.tail[i]);
            proof {
                assert(out@ =~= seq![self.head] + self.tail@.subrange(0, i + 1));
            }
            i = i + 1;
        }
        proof {
            assert(out@ =~= self.body_spec());
        }
        out
    }
}

impl Clone for Snake {
    /// A value-equal copy of the snake.
    fn clone(&self) -> (r: Snake)
        ensures
            snake_like(r, *self),
    {
        let mut tail: Vec<Point> = Vec::new();
        let n = self.tail.len();
        let mut i: usize = 0;
        while i < n
            invariant
                i <= n,
                n == self.tail@.len(),
                tail@ == self.tail@.subrange(0, i as int),
            decreases n - i,
        {
            tail.push(self.tail[i]);
            proof {
                assert(tail@ =~= self.tail@.subrange(0, i + 1));
            }
            i = i + 1;
        }
        proof {
            assert(tail@ =~= self.tail@);
        }
        Snake { head: self.head, tail, color: self.color }
    }
}

/// The cell `k` steps from `p` in direction `d` (meaningful only while the
/// coordinate stays within `u32`).
pub open spec fn offset_point(p: Point, d: Direction, k: int) -> Point {
    match d {
        Direction::Up => Point { x: p.x, y: (p.y - k) as u32 },
        Direction::Down => Point { x: p.x, y: (p.y + k) as u32 },
        Direction::Left => Point { x: (p.x - k) as u32, y: p.y },
        Direction::Right => Point { x: (p.x + k) as u32, y: p.y },
    }
}

/// Some entry of `s` carries the identifier `id`.
pub open spec fn has_id(s: Seq<(SnakeID, Snake)>, id: SnakeID) -> bool {
    exists|i: int| 0 <= i < s.len() && (#[trigger] s[i]).0 == id
}

/// All entries of `s` carry pairwise distinct identifiers.
pub open spec fn ids_distinct(s: Seq<(SnakeID, Snake)>) -> bool {
    forall|i: int, j: int| 0 <= i < j < s.len() ==> (#[trigger] s[i]).0 != (#[trigger] s[j]).0
}

/// The registry of live snakes, keyed by unique identifiers issued from a
/// monotonically increasing counter.
pub struct Snakes {
    data: Vec<(SnakeID, Snake)>,
    ids_counter: u32,
}

impl Snakes {
    /// The registry entries, in insertion order.
    pub closed spec fn entries(&self) -> Seq<(SnakeID, Snake)> {
        self.data@
    }

    /// The next identifier value to be issued. It never decreases and is
    /// strictly above every live identifier.
    pub closed spec fn counter_spec(&self) -> u32 {
        self.ids_counter
    }

    /// Identifiers are pairwise distinct, all below the counter, and every
    /// snake is well formed.
    pub open spec fn wf(&self) -> bool {
        &&& ids_distinct(self.entries())
        &&& forall|i: int|
            0 <= i < self.entries().len() ==> (#[trigger] self.entries()[i]).0.value()
                < self.counter_spec()
        &&& forall|i: int| 0 <= i < self.entries().len() ==> (#[trigger] self.entries()[i]).1.wf()
    }

    /// An empty registry.
    pub fn new() -> (r: Snakes)
        ensures
            r.wf(),
            r.entries() == Seq::<(SnakeID, Snake)>::empty(),
            r.counter_spec() == 0,
    {
        Snakes { data: Vec::new(), ids_counter: 0 }
    }

    /// How many snakes are live.
    pub fn len(&self) -> (r: usize)
        ensures
            r == self.entries().len(),
    {
        self.data.len()
    }

    /// Issues a fresh identifier, never seen before, and inserts the snake
    /// under it.
    pub fn add(&mut self, snake: Snake) -> (id: SnakeID)
        requires
            old(self).wf(),
            snake.wf(),
            old(self).counter_spec() < u32::MAX,
        ensures
            final(self).wf(),
            id.value() == old(self).counter_spec(),
            !has_id(old(self).entries(), id),
            final(self).entries() == old(self).entries().push((id, snake)),
            final(self).counter_spec() == old(self).counter_spec() + 1,
    {
        let id = SnakeID::make(self.ids_counter);
        self.ids_counter = self.ids_counter + 1;
        self.data.push((id, snake));
        proof {
            assert(!has_id(old(self).entries(), id)) by {
                assert(forall|i: int|
                    0 <= i < old(self).entries().len() ==> (#[trigger] old(
                        self,
                    ).entries()[i]).0.value() < id.value());
            }
        }
        id
    }

    /// Whether the identifier is live.
    pub fn contains(&self, id: SnakeID) -> (r: bool)
        ensures
            r == has_id(self.entries(), id),
    {
        let n = self.data.len();
        let mut i: usize = 0;
        while i < n
            invariant
                i <= n,
                n == self.entries().len(),
                forall|j: int| 0 <= j < i ==> (#[trigger] self.entries()[j]).0 != id,
            decreases n - i,
        {
            if self.data[i].0 == id {
                return true;
            }
            i = i + 1;
        }
        false
    }

    /// Removes the snake with the given live identifier and hands it back.
    pub fn remove_snake(&mut self, id: SnakeID) -> (r: Snake)
        requires
            old(self).wf(),
            has_id(old(self).entries(), id),
        ensures
            final(self).wf(),
            final(self).counter_spec() == old(self).counter_spec(),
            exists|i: int|
                0 <= i < old(self).entries().len() && (#[trigger] old(self).entries()[i]).0 == id
                    && r == old(self).entries()[i].1 && final(self).entries() == old(
                    self,
                ).entries().remove(i),
            !has_id(final(self).entries(), id),
            forall|other: SnakeID|
                other != id ==> #[trigger] has_id(final(self).entries(), other) == has_id(
                    old(self).entries(),
                    other,
                ),
    {
        let n = self.data.len();
        let mut i: usize = 0;
        while i < n
            invariant
                i <= n,
                n == self.entries().len(),
                *self == *old(self),
                old(self).wf(),
                has_id(old(self).entries(), id),
                forall|j: int| 0 <= j < i ==> (#[trigger] self.entries()[j]).0 != id,
            decreases n - i,
        {
            if self.data[i].0 == id {
                let entry = self.data.remove(i);
                proof {
                    lemma_remove_keeps_others(old(self).entries(), i as int, id);
                    assert forall|j: int| 0 <= j < self.entries().len() implies (
                    #[trigger] self.entries()[j]).0.value() < self.counter_spec()
                        && self.entries()[j].1.wf() by {
                        if j < i {
                            assert(self.entries()[j] == old(self).entries()[j]);
                        } else {
                            assert(self.entries()[j] == old(self).entries()[j + 1]);
                        }
                    }
                }
                return entry.1;
            }
            i = i + 1;
        }
        proof {
            assert(false);
        }
        unreached()
    }

    /// The registry entries as owned copies, in an unspecified order.
    pub fn iter(&self) -> (r: Vec<(SnakeID, Snake)>)
        ensures
            r@.len() == self.entries().len(),
            forall|i: int|
                0 <= i < r@.len() ==> (#[trigger] r@[i]).0 == self.entries()[i].0 && snake_like(
                    r@[i].1,
                    self.entries()[i].1,
                ),
    {
        let mut out: Vec<(SnakeID, Snake)> = Vec::new();
        let n = self.data.len();
        let mut i: usize = 0;
        while i < n
            invariant
                i <= n,
                n == self.entries().len(),
                out@.len() == i,
                forall|j: int|
                    0 <= j < i ==> (#[trigger] out@[j]).0 == self.entries()[j].0 && snake_like(
                        out@[j].1,
                        self.entries()[j].1,
                    ),
            decreases n - i,
        {
            let id = self.data[i].0;
            let snake = self.data[i].1.clone();
            out.push((id, snake));
            i = i + 1;
        }
        out
    }

    /// The live snakes as owned copies, in an unspecified order.
    pub fn snakes(&self) -> (r: Vec<Snake>)
        ensures
            r@.len() == self.entries().len(),
            forall|i: int| 0 <= i < r@.len() ==> snake_like(#[trigger] r@[i], self.entries()[i].1),
    {
        let mut out: Vec<Snake> = Vec::new();
        let n = self.data.len();
        let mut i: usize = 0;
        while i < n
            invariant
                i <= n,
                n == self.entries().len(),
                out@.len() == i,
                forall|j: int| 0 <= j < i ==> snake_like(#[trigger] out@[j], self.entries()[j].1),
            decreases n - i,
        {
            let snake = self.data[i].1.clone();
            out.push(snake);
            i = i + 1;
        }
        out
    }

    /// Each live identifier with its snake's head cell.
    pub fn heads(&self) -> (r: Vec<(SnakeID, Point)>)
        ensures
            r@.len() == self.entries().len(),
            forall|i: int|
                0 <= i < r@.len() ==> #[trigger] r@[i] == (
                    self.entries()[i].0,
                    self.entries()[i].1.head,
                ),
    {
        let mut out: Vec<(SnakeID, Point)> = Vec::new();
        let n = self.data.len();
        let mut i: usize = 0;
        while i < n
            invariant
                i <= n,
                n == self.entries().len(),
                out@.len() == i,
                forall|j: int|
                    0 <= j < i ==> #[trigger] out@[j] == (
                        self.entries()[j].0,
                        self.entries()[j].1.head,
                    ),
            decreases n - i,
        {
            out.push((self.data[i].0, self.data[i].1.head));
            i = i + 1;
        }
        out
    }

    /// The flattened occupied cells of every snake's full body; unordered
    /// and possibly with duplicates across snakes.
    pub fn cells(&self) -> (r: Vec<Point>)
        ensures
            r@ == cells_of(self.entries()),
    {
        let mut out: Vec<Point> = Vec::new();
        let n = self.data.len();
        let mut i: usize = 0;
        while i < n
            invariant
                i <= n,
                n == self.entries().len(),
                out@ == cells_of(self.entries().take(i as int)),
            decreases n - i,
        {
            out.push(self.data[i].1.head);
            let m = self.data[i].1.tail.len();
            let mut k: usize = 0;
            while k < m
                invariant
                    k <= m,
                    i < n,
                    n == self.entries().len(),
                    m == self.entries()[i as int].1.tail@.len(),
                    out@ == cells_of(self.entries().take(i as int)) + seq![
                        self.entries()[i as int].1.head,
                    ] + self.entries()[i as int].1.tail@.subrange(0, k as int),
                decreases m - k,
            {
                out.push(self.data[i].1.tail[k]);
                proof {
                    assert(out@ =~= cells_of(self.entries().take(i as int)) + seq![
                        self.entries()[i as int].1.head,
                    ] + self.entries()[i as int].1.tail@.subrange(0, k + 1));
                }
                k = k + 1;
            }
            proof {
                assert(self.entries().take(i + 1).drop_last() =~= self.entries().take(i as int));
                assert(self.entries().take(i + 1).last() == self.entries()[i as int]);
                assert(self.entries()[i as int].1.tail@.subrange(
                    0,
                    m as int,
                ) =~= self.entries()[i as int].1.tail@);
                assert(out@ =~= cells_of(self.entries().take(i + 1)));
            }
            i = i + 1;
        }
        proof {
            assert(self.entries().take(n as int) =~= self.entries());
        }
        out
    }

    pub(crate) fn pop_front(&mut self) -> (e: (SnakeID, Snake))
        requires
            old(self).entries().len() >= 1,
        ensures
            e == old(self).entries()[0],
            final(self).entries() == old(self).entries().remove(0),
            final(self).counter_spec() == old(self).counter_spec(),
    {
        self.data.remove(0)
    }

    pub(crate) fn push_back(&mut self, e: (SnakeID, Snake))
        ensures
            final(self).entries() == old(self).entries().push(e),
            final(self).counter_spec() == old(self).counter_spec(),
    {
        self.data.push(e);
    }

    /// A reference to the entry at a position.
    pub fn entry_at(&self, i: usize) -> (r: &(SnakeID, Snake))
        requires
            i < self.entries().len(),
        ensures
            *r == self.entries()[i as int],
    {
        &self.data[i]
    }
}

/// The flattened body cells of the entries, in registry order.
pub open spec fn cells_of(s: Seq<(SnakeID, Snake)>) -> Seq<Point>
    decreases s.len(),
{
    if s.len() == 0 {
        Seq::empty()
    } else {
        cells_of(s.drop_last()) + s.last().1.body_spec()
    }
}

/// Removing the entry at `i` removes `id` when ids are distinct and entry
/// `i` carries `id`: no other entry can carry it.
proof fn lemma_remove_keeps_others(s: Seq<(SnakeID, Snake)>, i: int, id: SnakeID)
    requires
        ids_distinct(s),
        0 <= i < s.len(),
        s[i].0 == id,
    ensures
        !has_id(s.remove(i), id),
        forall|other: SnakeID|
            other != id ==> #[trigger] has_id(s.remove(i), other) == has_id(s, other),
        ids_distinct(s.remove(i)),
{
    let t = s.remove(i);
    assert forall|j: int| 0 <= j < t.len() implies (#[trigger] t[j]).0 != id by {
        if j < i {
            assert(t[j] == s[j]);
        } else {
            assert(t[j] == s[j + 1]);
        }
    }
    assert forall|other: SnakeID| other != id implies #[trigger] has_id(t, other) == has_id(
        s,
        other,
    ) by {
        if has_id(t, other) {
            let j = choose|j: int| 0 <= j < t.len() && (#[trigger] t[j]).0 == other;
            if j < i {
                assert(s[j].0 == other);
            } else {
                assert(s[j + 1].0 == other);
            }
        }
        if has_id(s, other) {
            let j = choose|j: int| 0 <= j < s.len() && (#[trigger] s[j]).0 == other;
            if j < i {
                assert(t[j].0 == other);
            } else {
                assert(j != i);
                assert(t[j - 1].0 == other);
            }
        }
    }
    assert forall|a: int, b: int| 0 <= a < b < t.len() implies (#[trigger] t[a]).0 != (
    #[trigger] t[b]).0 by {
        let sa = if a < i {
            a
        } else {
            a + 1
        };
        let sb = if b < i {
            b
        } else {
            b + 1
        };
        assert(t[a] == s[sa]);
        assert(t[b] == s[sb]);
    }
}

/// Identifiers issued by successive `add` calls are pairwise distinct,
/// regardless of interleaved removals: each call returns the counter value
/// of its moment and leaves the counter strictly larger, no operation ever
/// decreases the counter, so the issued values strictly grow.
pub proof fn lemma_issued_ids_distinct(issued: Seq<SnakeID>, i: int, j: int)
    requires
        forall|k: int|
            0 <= k < issued.len() - 1 ==> (#[trigger] issued[k]).value() < issued[k + 1].value(),
        0 <= i < j < issued.len(),
    ensures
        issued[i] != issued[j],
{
    lemma_issued_values_grow(issued, i, j);
}

proof fn lemma_issued_values_grow(issued: Seq<SnakeID>, i: int, j: int)
    requires
        forall|k: int|
            0 <= k < issued.len() - 1 ==> (#[trigger] issued[k]).value() < issued[k + 1].value(),
        0 <= i < j < issued.len(),
    ensures
        issued[i].value() < issued[j].value(),
    decreases j - i,
{
    if i + 1 == j {
        assert(issued[i].value() < issued[i + 1].value());
    } else {
        lemma_issued_values_grow(issued, i, j - 1);
        assert(issued[j - 1].value() < issued[j].value());
    }
}

} // verus!
