use snake_arena::Color;
use snake_arena::Direction;
use snake_arena::GameState;
use snake_arena::World;

use snake_arena::decode_direction;
use snake_arena::decode_frame_len;
use snake_arena::decode_join;
use snake_arena::encode_direction;
use snake_arena::encode_frame_len;
use snake_arena::encode_join;

#[test]
fn join_round_trip() {
    let mut gs = GameState::new(World::new(50, 50, 10));
    let p = gs.join(Color { r: 1, g: 2, b: 3 });
    let bytes = encode_join(&p);
    assert_eq!(bytes.len(), 12);
    assert_eq!(decode_join(&bytes), Some(p));
}

#[test]
fn join_rejects_wrong_size() {
    assert_eq!(decode_join(&vec![0u8; 11]), None);
    assert_eq!(decode_join(&vec![0u8; 13]), None);
    assert_eq!(decode_join(&Vec::new()), None);
}

#[test]
fn join_wire_layout_is_little_endian() {
    let mut gs = GameState::new(World::new(258, 513, 1));
    let p = gs.join(Color { r: 0, g: 0, b: 0 });
    let bytes = encode_join(&p);
    // width 513 = 0x201 encodes first, then height 258 = 0x102, then the
    // first issued id, 0.
    assert_eq!(&bytes[0..4], &[1, 2, 0, 0]);
    assert_eq!(&bytes[4..8], &[2, 1, 0, 0]);
    assert_eq!(&bytes[8..12], &[0, 0, 0, 0]);
}

#[test]
fn direction_round_trip() {
    for d in [Direction::Up, Direction::Down, Direction::Left, Direction::Right] {
        let bytes = encode_direction(d);
        assert_eq!(bytes.len(), 4);
        assert_eq!(decode_direction(&bytes), Some(d));
    }
}

#[test]
fn direction_tags() {
    assert_eq!(encode_direction(Direction::Up), vec![0, 0, 0, 0]);
    assert_eq!(encode_direction(Direction::Down), vec![1, 0, 0, 0]);
    assert_eq!(encode_direction(Direction::Left), vec![2, 0, 0, 0]);
    assert_eq!(encode_direction(Direction::Right), vec![3, 0, 0, 0]);
}

#[test]
fn direction_rejects_garbage() {
    // An unknown tag or a frame of the wrong size is a decode failure,
    // which disconnects only that client.
    assert_eq!(decode_direction(&vec![4, 0, 0, 0]), None);
    assert_eq!(decode_direction(&vec![0, 1, 0, 0]), None);
    assert_eq!(decode_direction(&vec![0, 0, 0]), None);
    assert_eq!(decode_direction(&vec![0, 0, 0, 0, 0]), None);
}

#[test]
fn frame_len_round_trip() {
    for n in [0u64, 1, 255, 256, 12_345_678_901, u64::MAX] {
        let bytes = encode_frame_len(n);
        assert_eq!(bytes.len(), 8);
        assert_eq!(decode_frame_len(&bytes), Some(n));
    }
    assert_eq!(decode_frame_len(&vec![0u8; 7]), None);
}

#[test]
fn frame_len_is_big_endian() {
    let bytes = encode_frame_len(0x0102030405060708);
    assert_eq!(bytes, vec![1, 2, 3, 4, 5, 6, 7, 8]);
}
