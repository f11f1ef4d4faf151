use snake_arena::Color;
use snake_arena::Direction;
use snake_arena::Fruits;
use snake_arena::GameState;
use snake_arena::Point;
use snake_arena::Snake;
use snake_arena::World;

fn tag() -> Color {
    Color { r: 10, g: 200, b: 30 }
}

fn heads_and_tails(gs: &GameState) -> Vec<(u32, Point, Vec<Point>)> {
    gs.world
        .snake_entries()
        .into_iter()
        .map(|(id, s)| (id.as_u32(), s.head(), s.tail().clone()))
        .collect()
}

#[test]
fn opposite_involution() {
    for d in [Direction::Up, Direction::Down, Direction::Left, Direction::Right] {
        assert_eq!(d.opposite().opposite(), d);
    }
    assert_eq!(Direction::Up.opposite(), Direction::Down);
    assert_eq!(Direction::Left.opposite(), Direction::Right);
}

#[test]
fn point_steps() {
    let p = Point::new(5, 5);
    assert_eq!(p.step(Direction::Up), Point::new(5, 4));
    assert_eq!(p.step(Direction::Down), Point::new(5, 6));
    assert_eq!(p.step(Direction::Left), Point::new(4, 5));
    assert_eq!(p.step(Direction::Right), Point::new(6, 5));
}

#[test]
fn spawn_shape() {
    let s = Snake::from_dir_len(Point::new(5, 5), Direction::Left, 4, tag());
    assert_eq!(s.head(), Point::new(5, 5));
    let tail: Vec<Point> = s.tail().clone();
    assert_eq!(
        tail,
        vec![Point::new(6, 5), Point::new(7, 5), Point::new(8, 5), Point::new(9, 5)]
    );
    assert_eq!(s.last(), Point::new(9, 5));
    let body = s.body();
    assert_eq!(body.len(), 5);
    assert_eq!(body[0], Point::new(5, 5));
}

#[test]
fn grow_duplicates_tail_end() {
    let mut s = Snake::from_dir_len(Point::new(5, 5), Direction::Up, 2, tag());
    assert_eq!(s.tail().clone(), vec![Point::new(5, 6), Point::new(5, 7)]);
    s.grow();
    assert_eq!(
        s.tail().clone(),
        vec![Point::new(5, 6), Point::new(5, 7), Point::new(5, 7)]
    );
}

#[test]
fn tick_moves_left_without_elimination() {
    // A 10 by 10 world with one fruit: one tick moves the snake one cell
    // left, shifts the tail, eliminates nobody and keeps the fruit count.
    let mut gs = GameState::new(World::new(10, 10, 1));
    let snake = Snake::from_dir_len(Point::new(5, 5), Direction::Left, 4, tag());
    let id = gs.add_snake(snake, Direction::Left);
    let fruits_before = gs.fruits();
    let ate = fruits_before.contains(&Point::new(4, 5));
    let hits = gs.update();
    assert!(hits.is_empty());
    let entries = heads_and_tails(&gs);
    assert_eq!(entries.len(), 1);
    let (got_id, head, tail) = &entries[0];
    assert_eq!(*got_id, id.as_u32());
    assert_eq!(*head, Point::new(4, 5));
    assert_eq!(tail[0], Point::new(5, 5));
    assert_eq!(tail[1], Point::new(6, 5));
    assert_eq!(tail[2], Point::new(7, 5));
    assert_eq!(tail[3], Point::new(8, 5));
    assert_eq!(tail.len(), if ate { 5 } else { 4 });
    assert_eq!(gs.world.fruit_count(), 1);
}

#[test]
fn boundary_elimination() {
    // A snake one cell from the left boundary moving left is eliminated:
    // coordinate zero counts as out of bounds.
    let mut gs = GameState::new(World::new(10, 10, 1));
    let snake = Snake::from_dir_len(Point::new(1, 5), Direction::Left, 3, tag());
    let id = gs.add_snake(snake, Direction::Left);
    let hits = gs.update();
    assert_eq!(hits.len(), 1);
    assert_eq!(hits[0].0, id);
    assert_eq!(hits[0].1.head(), Point::new(0, 5));
    assert!(!gs.world.contains_snake(id));
}

#[test]
fn far_edge_elimination() {
    // The far edge is out of bounds too: x == width eliminates.
    let mut gs = GameState::new(World::new(10, 10, 1));
    let snake = Snake::from_dir_len(Point::new(9, 5), Direction::Right, 3, tag());
    let id = gs.add_snake(snake, Direction::Right);
    let hits = gs.update();
    assert_eq!(hits.len(), 1);
    assert_eq!(hits[0].0, id);
    assert!(!gs.world.contains_snake(id));
}

#[test]
fn cross_snake_collision() {
    // On a 50 by 50 grid, snake A moves its head into a cell of snake B's
    // tail: A is eliminated the same tick, B is unaffected.
    let mut gs = GameState::new(World::new(50, 50, 10));
    let a = Snake::from_dir_len(Point::new(11, 10), Direction::Left, 3, tag());
    let a_id = gs.add_snake(a, Direction::Left);
    let b = Snake::from_dir_len(Point::new(10, 10), Direction::Down, 3, tag());
    let b_id = gs.add_snake(b, Direction::Down);
    let hits = gs.update();
    assert_eq!(hits.len(), 1);
    assert_eq!(hits[0].0, a_id);
    assert!(!gs.world.contains_snake(a_id));
    assert!(gs.world.contains_snake(b_id));
}

#[test]
fn fruit_count_invariant_over_ticks() {
    let mut gs = GameState::new(World::new(20, 20, 5));
    gs.join(tag());
    gs.join(tag());
    for _ in 0..10 {
        assert_eq!(gs.world.fruit_count(), 5);
        gs.update();
        assert_eq!(gs.world.fruit_count(), 5);
    }
}

#[test]
fn eating_grows_by_one_at_the_fruit() {
    // Steer a snake onto a known fruit: its tail grows by exactly one and
    // its head sits where the fruit was.
    let mut gs = GameState::new(World::new(50, 50, 10));
    let fruit = gs.fruits().into_iter().find(|f| f.x >= 1 && f.y >= 1);
    let Some(fruit) = fruit else {
        // All fruits on the zero edge: astronomically unlikely, nothing to
        // steer onto without an elimination.
        return;
    };
    let snake = Snake::from_dir_len(Point::new(fruit.x + 1, fruit.y), Direction::Left, 3, tag());
    let id = gs.add_snake(snake, Direction::Left);
    let hits = gs.update();
    assert!(hits.is_empty());
    let entries = gs.world.snake_entries();
    let (_, s) = entries.iter().find(|(i, _)| *i == id).unwrap();
    assert_eq!(s.head(), fruit);
    assert_eq!(s.tail().len(), 4);
    assert_eq!(gs.world.fruit_count(), 10);
}

#[test]
fn join_handshake() {
    // Joining a 50 by 50 world hands back its dimensions and a previously
    // unused identifier.
    let mut gs = GameState::new(World::new(50, 50, 10));
    let p1 = gs.join(tag());
    assert_eq!(p1.width, 50);
    assert_eq!(p1.height, 50);
    let p2 = gs.join(tag());
    assert_eq!(p2.width, 50);
    assert_eq!(p2.height, 50);
    assert_ne!(p1.id, p2.id);
    assert!(gs.world.contains_snake(p1.id));
    assert!(gs.world.contains_snake(p2.id));
}

#[test]
fn ids_never_reused() {
    // Sequential insertions yield pairwise distinct identifiers, with
    // removals interleaved.
    let mut gs = GameState::new(World::new(30, 30, 2));
    let mk = || Snake::from_dir_len(Point::new(15, 15), Direction::Left, 4, tag());
    let a = gs.add_snake(mk(), Direction::Left);
    let b = gs.add_snake(mk(), Direction::Left);
    assert!(gs.remove_snake(a).is_some());
    let c = gs.add_snake(mk(), Direction::Left);
    assert!(gs.remove_snake(b).is_some());
    let d = gs.add_snake(mk(), Direction::Left);
    let ids = [a, b, c, d];
    for i in 0..ids.len() {
        for j in 0..ids.len() {
            if i != j {
                assert_ne!(ids[i], ids[j]);
            }
        }
    }
    assert!(gs.remove_snake(a).is_none());
}

#[test]
fn change_dir_applies_next_tick() {
    let mut gs = GameState::new(World::new(20, 20, 1));
    let snake = Snake::from_dir_len(Point::new(10, 10), Direction::Left, 3, tag());
    let id = gs.add_snake(snake, Direction::Left);
    gs.change_dir(id, Direction::Down);
    gs.update();
    let entries = heads_and_tails(&gs);
    assert_eq!(entries[0].1, Point::new(10, 11));
}

#[test]
fn cells_cover_every_body() {
    let mut gs = GameState::new(World::new(20, 20, 1));
    let snake = Snake::from_dir_len(Point::new(10, 10), Direction::Up, 2, tag());
    gs.add_snake(snake, Direction::Up);
    let cells = gs.cells();
    assert_eq!(
        cells,
        vec![Point::new(10, 10), Point::new(10, 11), Point::new(10, 12)]
    );
}

#[test]
fn fruits_spawn_inside_spawn_area() {
    let mut f = Fruits::new(7, 9, 9);
    let cells = f.iter();
    assert_eq!(cells.len(), 7);
    for c in &cells {
        assert!(c.x < 8 && c.y < 8);
    }
    // A cell outside the spawn area is never a fruit.
    assert!(!f.try_eat(Point::new(8, 8)));
    assert_eq!(f.len(), 7);
    // Eating a present fruit keeps the count.
    assert!(f.try_eat(cells[0]));
    assert_eq!(f.len(), 7);
}

#[test]
fn snapshot_matches_world() {
    let mut gs = GameState::new(World::new(20, 20, 3));
    gs.join(tag());
    let snap = gs.world.snapshot();
    assert_eq!(snap.snakes.len(), 1);
    assert_eq!(snap.fruits.len(), 3);
}
