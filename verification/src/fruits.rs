//! The fruit field: a fixed number of fruit cells with consume-and-respawn
//! semantics.

use vstd::prelude::*;

use crate::world::Point;

verus! {

/// One eating step on a fruit field: some occurrence of `p` is removed and
/// one freshly drawn fruit from the spawn area is appended. The respawned
/// fruit is independent of the removed one and may coincide with another
/// fruit or an occupied cell.
pub open spec fn fruit_replaced(
    pre: Seq<Point>,
    p: Point,
    post: Seq<Point>,
    width: u32,
    height: u32,
) -> bool {
    &&& post.len() == pre.len()
    &&& exists|i: int, q: Point|
        0 <= i < pre.len() && pre[i] == p && q.x + 1 < width && q.y + 1 < height && post =~= pre
            .remove(i).push(q)
}

/// A multiset of fruit positions on the grid. The number of fruits is fixed
/// at construction: every eaten fruit is replaced one for one.
pub struct Fruits {
    data: Vec<Point>,
    width: u32,
    height: u32,
}

impl Fruits {
    /// The current fruit positions.
    pub closed spec fn fruits(&self) -> Seq<Point> {
        self.data@
    }

    pub closed spec fn width_spec(&self) -> u32 {
        self.width
    }

    pub closed spec fn height_spec(&self) -> u32 {
        self.height
    }

    /// Every fruit lies in the spawn area `[0, width-1) x [0, height-1)`.
    pub closed spec fn wf(&self) -> bool {
        &&& 2 <= self.width
        &&& 2 <= self.height
        &&& forall|i: int|
            0 <= i < self.data@.len() ==> (#[trigger] self.data@[i]).x + 1 < self.width
                && self.data@[i].y + 1 < self.height
    }

    /// Seeds `fruits_count` fruits at random positions in the spawn area.
    pub fn new(fruits_count: u32, width: u32, height: u32) -> (r: Fruits)
        requires
            2 <= width,
            2 <= height,
        ensures
            r.wf(),
            r.width_spec() == width,
            r.height_spec() == height,
            r.fruits().len() == fruits_count,
            forall|i: int|
                0 <= i < r.fruits().len() ==> (#[trigger] r.fruits()[i]).x + 1 < width
                    && r.fruits()[i].y + 1 < height,
    {
        let mut data: Vec<Point> = Vec::new();
        let mut i: u32 = 0;
        while i < fruits_count
            invariant
                i <= fruits_count,
                data@.len() == i,
                2 <= width,
                2 <= height,
                forall|j: int|
                    0 <= j < data@.len() ==> (#[trigger] data@[j]).x + 1 < width && data@[j].y + 1
                        < height,
            decreases fruits_count - i,
        {
            let fruit = random_fruit_in(width, height);
            data.push(fruit);
            i = i + 1;
        }
        Fruits { data, width, height }
    }

    /// If `point` is a fruit, removes it, spawns one fresh random fruit and
    /// returns true; otherwise returns false and changes nothing. The
    /// number of fruits never changes.
    pub fn try_eat(&mut self, point: Point) -> (r: bool)
        requires
            old(self).wf(),
        ensures
            final(self).wf(),
            final(self).width_spec() == old(self).width_spec(),
            final(self).height_spec() == old(self).height_spec(),
            final(self).fruits().len() == old(self).fruits().len(),
            r == old(self).fruits().contains(point),
            r ==> fruit_replaced(
                old(self).fruits(),
                point,
                final(self).fruits(),
                old(self).width_spec(),
                old(self).height_spec(),
            ),
            !r ==> final(self).fruits() == old(self).fruits(),
    {
        let n = self.data.len();
        let mut i: usize = 0;
        while i < n
            invariant
                i <= n,
                n == self.data@.len(),
                *self == *old(self),
                old(self).wf(),
                forall|j: int| 0 <= j < i ==> self.data@[j] != point,
            decreases n - i,
        {
            if self.data[i] == point {
                let fresh = random_fruit_in(self.width, self.height);
                self.data.remove(i);
                self.data.push(fresh);
                proof {
                    assert(old(self).fruits().contains(point)) by {
                        assert(old(self).fruits()[i as int] == point);
                    }
                    assert(fruit_replaced(
                        old(self).fruits(),
                        point,
                        self.fruits(),
                        old(self).width_spec(),
                        old(self).height_spec(),
                    )) by {
                        assert(self.fruits() =~= old(self).fruits().remove(i as int).push(fresh));
                    }
                }
                return true;
            }
            i = i + 1;
        }
        proof {
            assert(!old(self).fruits().contains(point)) by {
                assert(forall|j: int| 0 <= j < old(self).fruits().len() ==> old(
                    self,
                ).fruits()[j] != point);
            }
        }
        false
    }

    /// The current fruit positions, in an unspecified order.
    pub fn iter(&self) -> (r: Vec<Point>)
        ensures
            r@ == self.fruits(),
    {
        let mut out: Vec<Point> = Vec::new();
        let mut i: usize = 0;
        let n = self.data.len();
        while i < n
            invariant
                i <= n,
                n == self.data@.len(),
                out@ == self.data@.subrange(0, i as int),
            decreases n - i,
        {
            out.push(self.data[i]);
            proof {
                assert(out@ =~= self.data@.subrange(0, i + 1));
            }
            i = i + 1;
        }
        proof {
            assert(out@ =~= self.fruits());
        }
        out
    }

    /// How many fruits are on the field.
    pub fn len(&self) -> (r: usize)
        ensures
            r == self.fruits().len(),
    {
        self.data.len()
    }
}

/// A fruit cell drawn at random from the spawn area
/// `[0, width-1) x [0, height-1)`.
fn random_fruit_in(width: u32, height: u32) -> (r: Point)
    requires
        2 <= width,
        2 <= height,
    ensures
        r.x + 1 < width,
        r.y + 1 < height,
{
    let x = random_below(width - 1);
    let y = random_below(height - 1);
    Point::new(x, y)
}

/// Relies on rand's `Rng::gen_range` over `0..bound`: it returns a
/// uniformly distributed integer of that range, and the range is nonempty
/// because `bound` is at least one.
#[verifier::external_body]
fn random_below(bound: u32) -> (r: u32)
    requires
        1 <= bound,
    ensures
        r < bound,
{
    rand::Rng::gen_range(&mut rand::thread_rng(), 0..bound)
}

} // verus!
