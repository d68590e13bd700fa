use unblock_me::{Block, BlockDir, BlockType, ByteStream, Level, Move, Sprite, Tint};
use unblock_me::engine::compute_extent;

const SAMPLE: &str = "&&&&&&&&&---**|&&**|**|&&==|**|^&|*|*--&&|***|*&&---*|*&&&&&&&&&";

const OPEN: &str = "&&&&&&&&&******&&******&&==****^&******&&******&&******&&&&&&&&&";

fn level(text: &str) -> Level {
    assert_eq!(text.len(), 64);
    let mut stream = ByteStream::new(text.as_bytes().to_vec());
    Level::from(&mut stream)
}

/// The number that the piece holds on the grid.
fn number_of(level: &Level, i: usize) -> u8 {
    let b = level.blocks()[i];
    level.data()[b.x1 + 8 * b.y1]
}

/// Middle of cell `(x, y)` in a window of 500 by 500 pixels.
fn px(x: usize, y: usize) -> (usize, usize) {
    (75 + 50 * x, 75 + 50 * y)
}

fn press(level: &mut Level, x: usize, y: usize) {
    let (mx, my) = px(x, y);
    level.begin_drag(mx, my);
}

fn pull(level: &mut Level, x: usize, y: usize) {
    let (mx, my) = px(x, y);
    level.drag_to(mx, my);
}

fn footprints(level: &Level) -> Vec<(usize, usize, usize, usize)> {
    level.blocks().iter().map(|b| (b.x1, b.y1, b.x2, b.y2)).collect()
}

fn player_of(level: &Level) -> (usize, Block) {
    let i = level.blocks().iter().position(|b| b.kind == BlockType::Player).unwrap();
    (i, level.blocks()[i])
}

fn overlaps_other_solid(level: &Level, i: usize, x1: usize, y1: usize, x2: usize, y2: usize) -> bool {
    level.blocks().iter().enumerate().any(|(j, o)| {
        j != i && o.kind != BlockType::Exit && x1 <= o.x2 && o.x1 <= x2 && y1 <= o.y2 && o.y1 <= y2
    })
}

#[test]
fn drag_player_two_cells_right_over_floor() {
    let mut l = level(OPEN);
    let (i, before) = player_of(&l);
    assert_eq!((before.x1, before.x2), (1, 2));
    press(&mut l, 1, 3);
    assert_eq!(l.drag_target(), Some(i));
    assert_eq!(l.drag_origin(), Some((1, 3)));
    pull(&mut l, 3, 3);
    let (_, during) = player_of(&l);
    assert!(during.drag);
    assert_eq!((during.target_x, during.target_y), (before.x1 + 2, 3));
    let wide = during.x2 - during.x1;
    assert_eq!((during.target_x, during.target_x + wide), (before.x1 + 2, before.x2 + 2));
    // Only the target has changed.
    assert_eq!((during.x1, during.y1, during.x2, during.y2), (1, 3, 2, 3));
    assert_eq!(l.data(), level(OPEN).data());
    assert_eq!(l.moves().len(), 0);
}

#[test]
fn drag_player_right_against_a_piece_stays() {
    let mut l = level(SAMPLE);
    let (i, before) = player_of(&l);
    press(&mut l, 1, 3);
    assert_eq!(l.drag_target(), Some(i));
    pull(&mut l, 3, 3);
    let (_, during) = player_of(&l);
    assert_eq!((during.target_x, during.target_y), (before.x1, before.y1));
    pull(&mut l, 7, 3);
    let (_, during) = player_of(&l);
    assert_eq!((during.target_x, during.target_y), (before.x1, before.y1));
    // Against the wall on the left as well.
    pull(&mut l, 0, 3);
    let (_, during) = player_of(&l);
    assert_eq!((during.target_x, during.target_y), (before.x1, before.y1));
}

#[test]
fn drag_follows_the_pointer_back_and_forth() {
    let mut l = level(OPEN);
    press(&mut l, 2, 3);
    pull(&mut l, 5, 3);
    assert_eq!(player_of(&l).1.target_x, 4);
    pull(&mut l, 3, 3);
    assert_eq!(player_of(&l).1.target_x, 2);
    pull(&mut l, 2, 3);
    assert_eq!(player_of(&l).1.target_x, 1);
    pull(&mut l, 0, 3);
    assert_eq!(player_of(&l).1.target_x, 1);
    // Rows do not matter to a piece that slides left and right.
    pull(&mut l, 4, 6);
    assert_eq!((player_of(&l).1.target_x, player_of(&l).1.target_y), (3, 3));
}

#[test]
fn drag_stops_at_the_first_obstacle() {
    let text = "&&&&&&&&&******&&******&&==**|*^&****|*&&******&&******&&&&&&&&&";
    let mut l = level(text);
    press(&mut l, 1, 3);
    pull(&mut l, 7, 3);
    assert_eq!(player_of(&l).1.target_x, 3);
    l.end_drag();
    assert_eq!(footprints(&l)[player_of(&l).0], (3, 3, 4, 3));
    assert!(!l.solved());
}

#[test]
fn pointer_outside_the_board_is_clamped() {
    let mut l = level(OPEN);
    press(&mut l, 1, 3);
    l.drag_to(usize::MAX, 0);
    assert_eq!(player_of(&l).1.target_x, 6);
    l.drag_to(0, usize::MAX);
    assert_eq!(player_of(&l).1.target_x, 1);
}

#[test]
fn target_never_overlaps_another_block() {
    for text in [SAMPLE, OPEN] {
        let fresh = level(text);
        for i in 0..fresh.blocks().len() {
            let b = fresh.blocks()[i];
            if b.dir == BlockDir::Static {
                continue;
            }
            for to in 0..8 {
                let mut l = level(text);
                press(&mut l, b.x1, b.y1);
                assert_eq!(l.drag_target(), Some(i));
                if b.dir == BlockDir::LeftRight {
                    pull(&mut l, to, b.y1);
                } else {
                    pull(&mut l, b.x1, to);
                }
                let d = l.blocks()[i];
                let (x2, y2) = (d.target_x + b.x2 - b.x1, d.target_y + b.y2 - b.y1);
                assert!(x2 < 8 && y2 < 8);
                assert!(!overlaps_other_solid(&l, i, d.target_x, d.target_y, x2, y2));
                l.end_drag();
                let moved = l.blocks()[i];
                assert_eq!((moved.x1, moved.y1, moved.x2, moved.y2), (d.target_x, d.target_y, x2, y2));
                match moved.dir {
                    BlockDir::LeftRight => assert_eq!(moved.y1, moved.y2),
                    BlockDir::UpDown => assert_eq!(moved.x1, moved.x2),
                    BlockDir::Static => panic!("a fixed block was dragged"),
                }
            }
        }
    }
}

#[test]
fn vertical_piece_moves_up_and_down() {
    let mut l = level(SAMPLE);
    // The piece in column 5, rows 5 and 6, has one free cell above it at row
    // 5... it stands under the piece of row 4.
    let i = l.blocks().iter().position(|b| (b.x1, b.y1, b.x2, b.y2) == (5, 5, 5, 6)).unwrap();
    press(&mut l, 5, 6);
    assert_eq!(l.drag_target(), Some(i));
    pull(&mut l, 5, 2);
    assert_eq!((l.blocks()[i].target_x, l.blocks()[i].target_y), (5, 5));
    l.end_drag();
    // The piece in column 3, rows 2 to 4, can go up one and down one.
    let j = l.blocks().iter().position(|b| (b.x1, b.y1, b.x2, b.y2) == (3, 2, 3, 4)).unwrap();
    press(&mut l, 3, 3);
    assert_eq!(l.drag_target(), Some(j));
    pull(&mut l, 3, 0);
    assert_eq!((l.blocks()[j].target_x, l.blocks()[j].target_y), (3, 2));
    pull(&mut l, 3, 7);
    assert_eq!((l.blocks()[j].target_x, l.blocks()[j].target_y), (3, 3));
    l.end_drag();
    assert_eq!(footprints(&l)[j], (3, 3, 3, 5));
    assert_eq!(l.data()[2 * 8 + 3], b'*');
    assert_eq!(l.data()[5 * 8 + 3], 3);
    assert_eq!(number_of(&l, j), 3);
}

#[test]
fn commit_moves_the_block_and_the_grid() {
    let mut l = level(OPEN);
    let (i, _) = player_of(&l);
    let id = 1u8;
    assert_eq!(number_of(&l, i), id);
    press(&mut l, 1, 3);
    pull(&mut l, 4, 3);
    l.end_drag();
    let (_, after) = player_of(&l);
    assert_eq!((after.x1, after.y1, after.x2, after.y2), (4, 3, 5, 3));
    assert!(!after.drag);
    assert_eq!((after.target_x, after.target_y), (0, 0));
    assert_eq!(l.drag_target(), None);
    assert_eq!(l.drag_origin(), None);
    let data = l.data();
    assert_eq!(data[3 * 8 + 1], b'*');
    assert_eq!(data[3 * 8 + 2], b'*');
    assert_eq!(data[3 * 8 + 3], b'*');
    assert_eq!(data[3 * 8 + 4], id);
    assert_eq!(data[3 * 8 + 5], id);
    assert_eq!(data[3 * 8 + 7], b'^');
    assert_eq!(data[3 * 8], b'&');
    assert_eq!(l.moves().len(), 1);
    assert_eq!(l.moves()[0], Move { block: i, x: 1, y: 3 });
    assert!(!l.solved());
    assert_eq!(l.to_string(), "&&&&&&&&&******&&******&&***==*^&******&&******&&******&&&&&&&&&");
}

#[test]
fn commit_then_undo_restores_grid_and_footprint() {
    for text in [SAMPLE, OPEN] {
        let fresh = level(text);
        for i in 0..fresh.blocks().len() {
            let b = fresh.blocks()[i];
            if b.dir == BlockDir::Static {
                continue;
            }
            for to in 0..8 {
                let mut l = level(text);
                press(&mut l, b.x1, b.y1);
                if b.dir == BlockDir::LeftRight {
                    pull(&mut l, to, b.y1);
                } else {
                    pull(&mut l, b.x1, to);
                }
                l.end_drag();
                assert_eq!(l.moves().len(), 1);
                let landed = l.blocks()[i];
                let on_exit = l.blocks().iter().any(|e| {
                    e.kind == BlockType::Exit
                        && landed.x1 <= e.x1
                        && e.x1 <= landed.x2
                        && landed.y1 <= e.y1
                        && e.y1 <= landed.y2
                });
                l.undo();
                if on_exit {
                    // The cell of the exit holds floor now; all others are as before.
                    let mut expected = fresh.data();
                    for e in fresh.blocks().iter().filter(|e| e.kind == BlockType::Exit) {
                        expected[e.x1 + 8 * e.y1] = b'*';
                    }
                    assert_eq!(l.data(), expected);
                } else {
                    assert_eq!(l.data(), fresh.data());
                }
                assert_eq!(footprints(&l), footprints(&fresh));
                assert_eq!(l.blocks(), fresh.blocks());
                assert_eq!(l.moves().len(), 0);
                assert_eq!(l.drag_target(), None);
            }
        }
    }
}

#[test]
fn undo_takes_moves_back_latest_first() {
    let mut l = level(OPEN);
    let start = level(OPEN);
    press(&mut l, 1, 3);
    pull(&mut l, 3, 3);
    l.end_drag();
    let middle_data = l.data();
    let middle_shapes = footprints(&l);
    press(&mut l, 3, 3);
    pull(&mut l, 4, 3);
    l.end_drag();
    assert_eq!(l.moves().len(), 2);
    assert_eq!(player_of(&l).1.x1, 4);
    l.undo();
    assert_eq!(l.moves().len(), 1);
    assert_eq!(l.data(), middle_data);
    assert_eq!(footprints(&l), middle_shapes);
    l.undo();
    assert_eq!(l.moves().len(), 0);
    assert_eq!(l.data(), start.data());
    assert_eq!(footprints(&l), footprints(&start));
}

#[test]
fn undo_with_no_move_changes_nothing() {
    let mut l = level(SAMPLE);
    let fresh = level(SAMPLE);
    l.undo();
    assert_eq!(l.data(), fresh.data());
    assert_eq!(l.blocks(), fresh.blocks());
    assert_eq!(l.moves().len(), 0);
    assert!(!l.solved());
}

#[test]
fn undo_during_a_drag_changes_nothing() {
    let mut l = level(OPEN);
    press(&mut l, 1, 3);
    pull(&mut l, 3, 3);
    l.end_drag();
    press(&mut l, 3, 3);
    pull(&mut l, 5, 3);
    l.undo();
    assert_eq!(l.moves().len(), 1);
    assert_eq!(l.drag_target(), Some(player_of(&l).0));
    assert_eq!(player_of(&l).1.target_x, 5);
    assert_eq!(player_of(&l).1.x1, 3);
}

#[test]
fn release_without_movement_goes_on_record() {
    let mut l = level(SAMPLE);
    let fresh = level(SAMPLE);
    let (i, _) = player_of(&l);
    press(&mut l, 1, 3);
    l.end_drag();
    assert_eq!(l.moves().len(), 1);
    assert_eq!(l.moves()[0], Move { block: i, x: 1, y: 3 });
    assert_eq!(l.data(), fresh.data());
    assert_eq!(l.blocks(), fresh.blocks());
    l.undo();
    assert_eq!(l.moves().len(), 0);
    assert_eq!(l.data(), fresh.data());
    assert_eq!(l.blocks(), fresh.blocks());
}

#[test]
fn release_with_no_drag_changes_nothing() {
    let mut l = level(SAMPLE);
    let fresh = level(SAMPLE);
    l.end_drag();
    assert_eq!(l.moves().len(), 0);
    assert_eq!(l.data(), fresh.data());
    assert_eq!(l.blocks(), fresh.blocks());
    l.drag_to(225, 225);
    assert_eq!(l.blocks(), fresh.blocks());
}

#[test]
fn reaching_the_exit_solves_the_level() {
    let mut l = level(OPEN);
    let (i, _) = player_of(&l);
    press(&mut l, 1, 3);
    pull(&mut l, 6, 3);
    assert_eq!(player_of(&l).1.target_x, 6);
    assert!(!l.solved());
    l.end_drag();
    assert!(l.solved());
    assert_eq!(footprints(&l)[i], (6, 3, 7, 3));
    assert_eq!(l.data()[3 * 8 + 6], 1);
    assert_eq!(l.data()[3 * 8 + 7], 1);
    assert_eq!(l.data()[3 * 8 + 1], b'*');
    assert_eq!(l.data()[3 * 8 + 2], b'*');
}

#[test]
fn stopping_short_of_the_exit_does_not_solve() {
    let mut l = level(OPEN);
    press(&mut l, 1, 3);
    pull(&mut l, 5, 3);
    l.end_drag();
    assert_eq!(player_of(&l).1.x2, 6);
    assert!(!l.solved());
    press(&mut l, 5, 3);
    pull(&mut l, 1, 3);
    l.end_drag();
    assert!(!l.solved());
}

#[test]
fn any_piece_may_enter_the_exit() {
    let text = "&&&|&&&&&**|***&&******&&==^***&&******&&******&&******&&&&&&&&&";
    let mut l = level(text);
    let i = l.blocks().iter().position(|b| b.dir == BlockDir::UpDown).unwrap();
    assert_eq!(footprints(&l)[i], (3, 0, 3, 1));
    // The exit's cell at (3, 3) does not stop the piece on its way down.
    press(&mut l, 3, 1);
    pull(&mut l, 3, 6);
    assert_eq!(l.blocks()[i].target_y, 5);
    l.end_drag();
    assert_eq!(footprints(&l)[i], (3, 5, 3, 6));
    assert!(!l.solved());
    assert_eq!(l.data()[3 * 8 + 3], b'^');
    // Nor does it stop the player, which comes to stand on it.
    press(&mut l, 1, 3);
    pull(&mut l, 3, 3);
    assert_eq!(player_of(&l).1.target_x, 3);
    l.end_drag();
    assert!(l.solved());
    assert_eq!(l.data()[3 * 8 + 3], number_of(&l, player_of(&l).0));
    assert_eq!(l.data()[3 * 8 + 3], 2);
}

#[test]
fn vertical_piece_on_the_exit_solves() {
    let text = "&&&|&&&&&**|***&&******&&==^***&&******&&******&&******&&&&&&&&&";
    let mut l = level(text);
    let i = l.blocks().iter().position(|b| b.dir == BlockDir::UpDown).unwrap();
    press(&mut l, 3, 0);
    pull(&mut l, 3, 1);
    l.end_drag();
    assert_eq!(footprints(&l)[i], (3, 1, 3, 2));
    assert!(!l.solved());
    press(&mut l, 3, 1);
    pull(&mut l, 3, 2);
    l.end_drag();
    assert_eq!(footprints(&l)[i], (3, 2, 3, 3));
    assert!(l.solved());
    // The exit is still there once the piece has left.
    l.undo();
    l.undo();
    assert_eq!(l.to_string(), text);
}

#[test]
fn press_next_to_a_block_takes_hold_of_it() {
    let mut l = level(OPEN);
    let (i, _) = player_of(&l);
    // Five pixels above the player's rectangle, which spans 100..200 by 200..250.
    l.begin_drag(100, 195);
    assert_eq!(l.drag_target(), Some(i));
    assert_eq!(l.drag_origin(), Some((1, 2)));
    assert!(player_of(&l).1.drag);
    assert_eq!((player_of(&l).1.target_x, player_of(&l).1.target_y), (1, 3));
    l.end_drag();

    l.begin_drag(210, 260);
    assert_eq!(l.drag_target(), Some(i));
    l.end_drag();

    l.begin_drag(90, 190);
    assert_eq!(l.drag_target(), Some(i));
    l.end_drag();
}

#[test]
fn press_far_from_any_block_changes_nothing() {
    let mut l = level(OPEN);
    let fresh = level(OPEN);
    l.begin_drag(100, 189);
    assert_eq!(l.drag_target(), None);
    assert_eq!(l.drag_origin(), None);
    l.begin_drag(211, 225);
    assert_eq!(l.drag_target(), None);
    l.begin_drag(89, 225);
    assert_eq!(l.drag_target(), None);
    // On a wall.
    let (mx, my) = px(0, 0);
    l.begin_drag(mx, my);
    assert_eq!(l.drag_target(), None);
    assert_eq!(l.blocks(), fresh.blocks());
}

#[test]
fn press_during_a_drag_changes_nothing() {
    let mut l = level(SAMPLE);
    press(&mut l, 1, 3);
    let held = l.drag_target();
    let origin = l.drag_origin();
    press(&mut l, 2, 6);
    assert_eq!(l.drag_target(), held);
    assert_eq!(l.drag_origin(), origin);
    assert_eq!(l.blocks().iter().filter(|b| b.drag).count(), 1);
}

#[test]
fn press_picks_the_first_block_under_the_pointer() {
    let mut l = level(SAMPLE);
    press(&mut l, 3, 1);
    let i = l.drag_target().unwrap();
    assert_eq!(footprints(&l)[i], (1, 1, 3, 1));
    l.end_drag();
    press(&mut l, 3, 4);
    let j = l.drag_target().unwrap();
    assert_eq!(footprints(&l)[j], (3, 2, 3, 4));
}

#[test]
fn reset_starts_over() {
    let mut l = level(OPEN);
    let fresh = level(OPEN);
    press(&mut l, 1, 3);
    pull(&mut l, 6, 3);
    l.end_drag();
    assert!(l.solved());
    press(&mut l, 6, 3);
    l.reset();
    assert!(!l.solved());
    assert_eq!(l.moves().len(), 0);
    assert_eq!(l.drag_target(), None);
    assert_eq!(l.drag_origin(), None);
    assert_eq!(l.blocks(), fresh.blocks());
    assert_eq!(l.data(), fresh.data());
    assert_eq!(l.template(), fresh.template());
}

#[test]
fn sxy_to_xy_uses_the_window_size() {
    let mut l = level(OPEN);
    assert_eq!(l.sxy_to_xy(125, 225), (1, 3));
    l.update(600, 400);
    assert_eq!(l.size(), (600, 400));
    assert_eq!(l.sxy_to_xy(125, 225), (0, 4));
    assert_eq!(l.sxy_to_xy(599, 399), (7, 7));
}

#[test]
fn update_drags_to_the_pointer_last_seen() {
    let mut l = level(OPEN);
    l.set_mouse_pos(125, 225);
    l.interact(true, Some((325, 225)), false);
    assert_eq!(l.drag_target(), Some(player_of(&l).0));
    assert_eq!(l.mouse_pos(), (325, 225));
    assert_eq!(player_of(&l).1.target_x, 1);
    l.update(500, 500);
    assert_eq!(player_of(&l).1.target_x, 5);
    l.interact(false, None, false);
    assert_eq!(l.drag_target(), None);
    assert_eq!(player_of(&l).1.x1, 5);
    assert_eq!(l.moves().len(), 1);
    l.interact(false, None, true);
    assert_eq!(player_of(&l).1.x1, 1);
    assert_eq!(l.moves().len(), 0);
}

#[test]
fn interact_ignores_a_pointer_that_is_not_reported() {
    let mut l = level(OPEN);
    l.set_mouse_pos(10, 20);
    l.interact(false, None, false);
    assert_eq!(l.mouse_pos(), (10, 20));
    l.interact(false, Some((30, 40)), false);
    assert_eq!(l.mouse_pos(), (30, 40));
    assert_eq!(l.drag_target(), None);
}

#[test]
fn draw_lists_sprites_last_block_first() {
    let mut l = level(OPEN);
    let n = l.blocks().len();
    let (i, _) = player_of(&l);
    let sprites = l.draw();
    assert_eq!(sprites.len(), n);
    assert_eq!(
        sprites[n - 1 - i],
        Sprite { x: 100, y: 200, width: 100, height: 50, tint: Tint::Red }
    );
    assert_eq!(sprites[n - 1], Sprite { x: 50, y: 50, width: 50, height: 50, tint: Tint::White });
    assert_eq!(sprites[0], Sprite { x: 400, y: 400, width: 50, height: 50, tint: Tint::White });
    let exit = l.blocks().iter().position(|b| b.kind == BlockType::Exit).unwrap();
    assert_eq!(
        sprites[n - 1 - exit],
        Sprite { x: 400, y: 200, width: 50, height: 50, tint: Tint::Yellow }
    );
    // A dragged block is drawn at its target.
    press(&mut l, 1, 3);
    pull(&mut l, 4, 3);
    let sprites = l.draw();
    assert_eq!(
        sprites[n - 1 - i],
        Sprite { x: 250, y: 200, width: 100, height: 50, tint: Tint::Red }
    );
}

#[test]
fn draw_colours_pieces_by_axis() {
    let l = level(SAMPLE);
    let n = l.blocks().len();
    let sprites = l.draw();
    for (i, b) in l.blocks().iter().enumerate() {
        let s = sprites[n - 1 - i];
        assert_eq!(s.x, 50 + 50 * b.x1);
        assert_eq!(s.y, 50 + 50 * b.y1);
        assert_eq!(s.width, 50 * (b.x2 - b.x1 + 1));
        assert_eq!(s.height, 50 * (b.y2 - b.y1 + 1));
        let tint = match (b.kind, b.dir) {
            (BlockType::Player, _) => Tint::Red,
            (BlockType::Wall, _) => Tint::White,
            (BlockType::Exit, _) => Tint::Yellow,
            (BlockType::Other(_), BlockDir::LeftRight) => Tint::Blue,
            (BlockType::Other(_), _) => Tint::Green,
        };
        assert_eq!(s.tint, tint);
    }
}

#[test]
fn extent_walks_until_blocked() {
    let l = level(OPEN);
    let (i, player) = player_of(&l);
    let id = number_of(&l, i);
    assert_eq!(id, 1);
    let data = l.data();
    assert_eq!(compute_extent(&data, &player, id, 0), 0);
    assert_eq!(compute_extent(&data, &player, id, 1), 1);
    assert_eq!(compute_extent(&data, &player, id, 2), 2);
    assert_eq!(compute_extent(&data, &player, id, 5), 5);
    assert_eq!(compute_extent(&data, &player, id, 6), 5);
    assert_eq!(compute_extent(&data, &player, id, isize::MAX), 5);
    assert_eq!(compute_extent(&data, &player, id, -1), 0);
    assert_eq!(compute_extent(&data, &player, id, isize::MIN), 0);
    let l = level(SAMPLE);
    let (i, player) = player_of(&l);
    assert_eq!(compute_extent(&l.data(), &player, number_of(&l, i), 3), 0);
    let piece = l.blocks().iter().position(|b| (b.x1, b.y1) == (5, 4)).unwrap();
    let b = l.blocks()[piece];
    assert_eq!(number_of(&l, piece), 6);
    assert_eq!(compute_extent(&l.data(), &b, 6, -7), -1);
    assert_eq!(compute_extent(&l.data(), &b, 6, 7), 0);
}

#[test]
fn solve_then_reset_puts_player_and_exit_back() {
    let mut l = level(OPEN);
    l.begin_drag(110, 210);
    l.drag_to(360, 210);
    l.end_drag();
    assert!(l.solved());
    assert_eq!(footprints(&l)[player_of(&l).0], (6, 3, 7, 3));
    assert_eq!(l.data()[30], 1);
    assert_eq!(l.data()[31], 1);
    assert_eq!(l.data()[25], b'*');
    assert_eq!(l.data()[26], b'*');
    l.reset();
    assert!(!l.solved());
    assert_eq!(footprints(&l)[player_of(&l).0], (1, 3, 2, 3));
    assert_eq!(l.to_string(), OPEN);
    assert_eq!(l.data()[25], 1);
    assert_eq!(l.data()[26], 1);
    assert_eq!(l.data()[30], b'*');
    assert_eq!(l.data()[31], b'^');
}

#[test]
fn two_cells_right_and_release() {
    let mut l = level(OPEN);
    l.begin_drag(110, 210);
    l.drag_to(210, 210);
    l.end_drag();
    assert!(!l.solved());
    assert_eq!(footprints(&l)[player_of(&l).0], (3, 3, 4, 3));
    assert_eq!(l.data()[27], 1);
    assert_eq!(l.data()[28], 1);
    assert_eq!(l.data()[25], b'*');
    assert_eq!(l.data()[26], b'*');
    assert_eq!(l.data()[31], b'^');
    // Taking the move back by the key.
    let round = l.interact(false, None, true);
    assert!(!round.began && !round.released);
    assert_eq!(footprints(&l)[player_of(&l).0], (1, 3, 2, 3));
    assert_eq!(l.data(), level(OPEN).data());
    assert_eq!(l.data()[25], 1);
    assert_eq!(l.data()[26], 1);
    assert_eq!(l.data()[27], b'*');
    assert_eq!(l.data()[28], b'*');
    assert_eq!(l.moves().len(), 0);
    assert!(!l.solved());
    assert_eq!(l.drag_target(), None);
}

#[test]
fn press_and_release_commits_at_the_origin() {
    let mut l = level(OPEN);
    l.begin_drag(110, 210);
    l.end_drag();
    assert_eq!(footprints(&l)[player_of(&l).0], (1, 3, 2, 3));
    assert_eq!(l.data(), level(OPEN).data());
    assert_eq!(l.data()[0], b'&');
    assert_eq!(l.data()[1], b'&');
    assert!(!l.solved());
    assert_eq!(l.moves().len(), 1);
}

#[test]
fn a_piece_that_leaves_the_exit_leaves_floor() {
    let mut l = level(OPEN);
    assert_eq!(l.data()[31], b'^');
    press(&mut l, 1, 3);
    pull(&mut l, 6, 3);
    l.end_drag();
    assert!(l.solved());
    assert_eq!(l.data()[30], 1);
    assert_eq!(l.data()[31], 1);
    press(&mut l, 6, 3);
    pull(&mut l, 4, 3);
    l.end_drag();
    assert_eq!(l.data()[31], b'*');
    assert_eq!(l.data()[30], b'*');
    assert_eq!(l.data()[28], 1);
    assert_eq!(l.data()[29], 1);
    // The exit is still where it was: the record shows it, and a piece
    // that comes to stand on its cell solves the level.
    assert_eq!(l.to_string(), "&&&&&&&&&******&&******&&***==*^&******&&******&&******&&&&&&&&&");
    l.undo();
    assert_eq!(l.data()[31], 1);
    assert_eq!(l.data()[28], b'*');
    l.undo();
    assert_eq!(l.data()[31], b'*');
    assert_eq!(l.data()[30], b'*');
    assert_eq!(l.data()[25], 1);
    assert_eq!(l.data()[26], 1);
    assert_eq!(l.moves().len(), 0);
    assert_eq!(l.to_string(), OPEN);
    // Starting over puts the exit mark back.
    l.reset();
    assert_eq!(l.data()[31], b'^');
    assert_eq!(l.data(), level(OPEN).data());
}

#[test]
fn the_exit_solves_again_after_a_piece_has_left_it() {
    let text = "&&&|&&&&&**|***&&******&&==^***&&******&&******&&******&&&&&&&&&";
    let mut l = level(text);
    // The piece of column 3 comes to stand on the exit and goes on.
    press(&mut l, 3, 1);
    pull(&mut l, 3, 3);
    l.end_drag();
    assert!(l.solved());
    assert_eq!(l.data()[3 * 8 + 3], 1);
    press(&mut l, 3, 3);
    pull(&mut l, 3, 6);
    l.end_drag();
    assert_eq!(footprints(&l)[l.blocks().iter().position(|b| b.dir == BlockDir::UpDown).unwrap()], (3, 5, 3, 6));
    assert_eq!(l.data()[3 * 8 + 3], b'*');
    assert_eq!(l.data()[2 * 8 + 3], b'*');
    // The player may still enter the cell.
    press(&mut l, 1, 3);
    pull(&mut l, 2, 3);
    assert_eq!(player_of(&l).1.target_x, 2);
    l.end_drag();
    assert_eq!(l.data()[3 * 8 + 3], 2);
    assert!(l.solved());
}

#[test]
fn interact_tells_what_the_round_did() {
    let mut l = level(OPEN);
    l.set_mouse_pos(125, 225);
    let round = l.interact(true, Some((225, 225)), false);
    assert_eq!((round.mouse_x, round.mouse_y), (125, 225));
    assert!(round.began);
    assert!(!round.released);
    let round = l.interact(true, None, false);
    assert_eq!((round.mouse_x, round.mouse_y), (225, 225));
    assert!(!round.began);
    assert!(!round.released);
    let round = l.interact(false, None, false);
    assert!(!round.began);
    assert!(round.released);
    let round = l.interact(false, None, false);
    assert!(!round.began);
    assert!(!round.released);
}
