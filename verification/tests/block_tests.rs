use tetris::block::{Block, BlockKind};

const KINDS: [BlockKind; 7] = [
    BlockKind::L,
    BlockKind::J,
    BlockKind::I,
    BlockKind::O,
    BlockKind::S,
    BlockKind::T,
    BlockKind::Z,
];

fn frame(kind: BlockKind) -> usize {
    match kind {
        BlockKind::I => 4,
        BlockKind::O => 2,
        _ => 3,
    }
}

#[test]
fn every_shape_has_four_distinct_cells_in_its_frame() {
    for kind in KINDS {
        let table = kind.cells();
        for rotation in 0..4 {
            let cells = table[rotation];
            for i in 0..4 {
                assert!(cells[i].0 < frame(kind), "{:?} {} row", kind, rotation);
                assert!(cells[i].1 < frame(kind), "{:?} {} col", kind, rotation);
                for j in (i + 1)..4 {
                    assert_ne!(cells[i], cells[j], "{:?} {}", kind, rotation);
                }
            }
        }
    }
}

#[test]
fn shape_table_of_l_is_exact() {
    assert_eq!(
        BlockKind::L.cells(),
        [
            [(0, 2), (1, 0), (1, 1), (1, 2)],
            [(0, 1), (1, 1), (2, 1), (2, 2)],
            [(1, 0), (1, 1), (1, 2), (2, 0)],
            [(0, 0), (0, 1), (1, 1), (2, 1)],
        ]
    );
}

#[test]
fn shape_table_of_i_uses_a_frame_of_four() {
    let table = BlockKind::I.cells();
    assert_eq!(table[0], [(1, 0), (1, 1), (1, 2), (1, 3)]);
    assert_eq!(table[1], [(0, 2), (1, 2), (2, 2), (3, 2)]);
    assert_eq!(table[2], [(2, 0), (2, 1), (2, 2), (2, 3)]);
    assert_eq!(table[3], [(0, 1), (1, 1), (2, 1), (3, 1)]);
}

#[test]
fn square_looks_the_same_in_every_rotation() {
    let table = BlockKind::O.cells();
    for rotation in 0..4 {
        assert_eq!(table[rotation], [(0, 0), (0, 1), (1, 0), (1, 1)]);
    }
}

#[test]
fn kind_ids_run_from_one_to_seven() {
    let ids: Vec<usize> = KINDS.iter().map(|kind| kind.id()).collect();
    assert_eq!(ids, vec![1, 2, 3, 4, 5, 6, 7]);
}

#[test]
fn kind_from_id_is_the_inverse_of_id() {
    for kind in KINDS {
        assert_eq!(BlockKind::from(kind.id()), kind);
    }
    assert_eq!(BlockKind::from(1), BlockKind::L);
    assert_eq!(BlockKind::from(7), BlockKind::Z);
}

#[test]
fn random_kind_is_one_of_the_seven_and_varies() {
    let mut seen = [false; 8];
    for _ in 0..500 {
        let id = BlockKind::random().id();
        assert!((1..=7).contains(&id));
        seen[id] = true;
    }
    let distinct = seen.iter().filter(|&&hit| hit).count();
    assert!(distinct >= 2, "500 draws gave one kind only");
}

#[test]
fn new_block_is_centred_in_the_top_row() {
    for kind in KINDS {
        let block = Block::new(kind);
        assert_eq!(block.kind(), kind);
        assert_eq!(block.rotation_state(), 0);
        assert_eq!(block.row_offset(), 0);
        let expected = if kind == BlockKind::O { 4 } else { 3 };
        assert_eq!(block.col_offset(), expected, "{:?}", kind);
    }
}

#[test]
fn cell_positions_are_col_then_row() {
    assert_eq!(Block::new(BlockKind::T).get_cell_position(), [(4, 0), (3, 1), (4, 1), (5, 1)]);
    assert_eq!(Block::new(BlockKind::L).get_cell_position(), [(5, 0), (3, 1), (4, 1), (5, 1)]);
    assert_eq!(Block::new(BlockKind::I).get_cell_position(), [(3, 1), (4, 1), (5, 1), (6, 1)]);
    assert_eq!(Block::new(BlockKind::O).get_cell_position(), [(4, 0), (5, 0), (4, 1), (5, 1)]);
}

#[test]
fn move_by_adds_to_the_offsets() {
    let mut block = Block::new(BlockKind::S);
    block.move_by(5, -2);
    assert_eq!(block.row_offset(), 5);
    assert_eq!(block.col_offset(), 1);
    // S unrotated: (0,1) (0,2) (1,0) (1,1)
    assert_eq!(block.get_cell_position(), [(2, 5), (3, 5), (1, 6), (2, 6)]);
    block.move_by(-5, 2);
    assert_eq!(block, Block::new(BlockKind::S));
}

#[test]
fn move_by_does_not_look_at_the_board() {
    let mut block = Block::new(BlockKind::J);
    block.move_by(-2, -6);
    // J unrotated: (0,0) (1,0) (1,1) (1,2)
    assert_eq!(block.get_cell_position(), [(-3, -2), (-3, -1), (-2, -1), (-1, -1)]);
}

#[test]
fn rotate_right_steps_through_the_four_states() {
    let mut block = Block::new(BlockKind::Z);
    let mut states = Vec::new();
    for _ in 0..4 {
        block.rotate_right();
        states.push(block.rotation_state());
    }
    assert_eq!(states, vec![1, 2, 3, 0]);
}

#[test]
fn rotate_left_steps_back_through_the_four_states() {
    let mut block = Block::new(BlockKind::Z);
    let mut states = Vec::new();
    for _ in 0..4 {
        block.rotate_left();
        states.push(block.rotation_state());
    }
    assert_eq!(states, vec![3, 2, 1, 0]);
}

#[test]
fn four_rotations_give_back_the_piece() {
    for kind in KINDS {
        let start = Block::new(kind);
        let mut right = start;
        let mut left = start;
        for _ in 0..4 {
            right.rotate_right();
            left.rotate_left();
        }
        assert_eq!(right, start);
        assert_eq!(left, start);
        assert_eq!(right.get_cell_position(), start.get_cell_position());
        assert_eq!(left.get_cell_position(), start.get_cell_position());
    }
}

#[test]
fn rotated_cells_follow_the_table() {
    let mut block = Block::new(BlockKind::T);
    block.move_by(10, 0);
    block.rotate_right();
    // T once turned: (0,1) (1,1) (1,2) (2,1), at row 10 and column 3
    assert_eq!(block.get_cell_position(), [(4, 10), (4, 11), (5, 11), (4, 12)]);
    block.rotate_left();
    block.rotate_left();
    // T in its last state: (0,1) (1,0) (1,1) (2,1)
    assert_eq!(block.get_cell_position(), [(4, 10), (3, 11), (4, 11), (4, 12)]);
}
