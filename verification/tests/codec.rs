use unblock_me::codec::{decode, encode, read_record};
use unblock_me::{Block, BlockDir, BlockType, ByteStream, Level, LevelSet, LoadError};

const SAMPLE: &str = "&&&&&&&&&---**|&&**|**|&&==|**|^&|*|*--&&|***|*&&---*|*&&&&&&&&&";

fn record_of(text: &str) -> [u8; 64] {
    let bytes = text.as_bytes();
    assert_eq!(bytes.len(), 64);
    let mut record = [0u8; 64];
    record.copy_from_slice(bytes);
    record
}

fn parsed(text: &str) -> Level {
    assert!(text.bytes().filter(|b| !b" \r\n".contains(b)).count() >= 64);
    let mut stream = ByteStream::new(text.as_bytes().to_vec());
    Level::from(&mut stream)
}

fn shapes(blocks: &[Block]) -> Vec<(BlockType, BlockDir, usize, usize, usize, usize)> {
    blocks.iter().map(|b| (b.kind, b.dir, b.x1, b.y1, b.x2, b.y2)).collect()
}

#[test]
fn sample_record_as_printed_is_one_glyph_short() {
    let printed = &SAMPLE[..63];
    assert_eq!(printed, "&&&&&&&&&---**|&&**|**|&&==|**|^&|*|*--&&|***|*&&---*|*&&&&&&&&");
    let mut stream = ByteStream::new(printed.as_bytes().to_vec());
    assert!(read_record(&mut stream).is_none());
    assert_eq!(stream.remaining(), 0);
    // With a line break behind it there are 64 bytes, so the record begins
    // and cannot be completed.
    let mut data = printed.as_bytes().to_vec();
    data.push(b'\n');
    match LevelSet::load(data) {
        Err(e) => assert_eq!(e, LoadError::NotEnoughData),
        Ok(_) => panic!("a record of 63 glyphs was accepted"),
    }
}

#[test]
fn sample_record_player_exit_walls_and_pieces() {
    let level = parsed(SAMPLE);
    let blocks = level.blocks();
    assert_eq!(blocks.len(), 36);

    let players: Vec<&Block> = blocks.iter().filter(|b| b.kind == BlockType::Player).collect();
    assert_eq!(players.len(), 1);
    let player = players[0];
    assert_eq!(player.dir, BlockDir::LeftRight);
    // Two cells wide, in row 3, right behind the border wall.
    assert_eq!((player.x1, player.y1, player.x2, player.y2), (1, 3, 2, 3));

    let exits: Vec<&Block> = blocks.iter().filter(|b| b.kind == BlockType::Exit).collect();
    assert_eq!(exits.len(), 1);
    assert_eq!(exits[0].dir, BlockDir::Static);
    assert_eq!((exits[0].x1, exits[0].y1, exits[0].x2, exits[0].y2), (7, 3, 7, 3));

    // Border walls: top and bottom rows, left column, right column but the exit.
    let walls: Vec<&Block> = blocks.iter().filter(|b| b.kind == BlockType::Wall).collect();
    assert_eq!(walls.len(), 27);
    for x in 0..8 {
        assert!(walls.iter().any(|w| (w.x1, w.y1) == (x, 0)));
        assert!(walls.iter().any(|w| (w.x1, w.y1) == (x, 7)));
    }
    for y in 0..8 {
        assert!(walls.iter().any(|w| (w.x1, w.y1) == (0, y)));
        if y != 3 {
            assert!(walls.iter().any(|w| (w.x1, w.y1) == (7, y)));
        }
    }

    let pieces: Vec<(BlockType, BlockDir, usize, usize, usize, usize)> = shapes(blocks)
        .into_iter()
        .filter(|s| matches!(s.0, BlockType::Other(_)))
        .collect();
    assert_eq!(
        pieces,
        vec![
            (BlockType::Other(b'-'), BlockDir::LeftRight, 1, 1, 3, 1),
            (BlockType::Other(b'|'), BlockDir::UpDown, 6, 1, 6, 3),
            (BlockType::Other(b'|'), BlockDir::UpDown, 3, 2, 3, 4),
            (BlockType::Other(b'|'), BlockDir::UpDown, 1, 4, 1, 5),
            (BlockType::Other(b'-'), BlockDir::LeftRight, 5, 4, 6, 4),
            (BlockType::Other(b'|'), BlockDir::UpDown, 5, 5, 5, 6),
            (BlockType::Other(b'-'), BlockDir::LeftRight, 1, 6, 3, 6),
        ]
    );
}

#[test]
fn sample_record_encodes_to_itself() {
    let level = parsed(SAMPLE);
    assert_eq!(level.serialize().to_vec(), SAMPLE.as_bytes().to_vec());
    assert_eq!(level.to_string(), SAMPLE);
    assert_eq!(level.template().to_vec(), SAMPLE.as_bytes().to_vec());
}

#[test]
fn sample_record_pretty() {
    let level = parsed(SAMPLE);
    assert_eq!(
        level.to_string_pretty(),
        "&&&&&&&&\n&---**|&\n&**|**|&\n&==|**|^\n&|*|*--&\n&|***|*&\n&---*|*&\n&&&&&&&&\n"
    );
}

#[test]
fn sample_record_grid_holds_piece_numbers_and_marks() {
    let level = parsed(SAMPLE);
    let data = level.data();
    let template = level.template();
    let blocks = level.blocks();
    let movable: Vec<&Block> = blocks.iter().filter(|b| b.dir != BlockDir::Static).collect();
    assert_eq!(movable.len(), 8);
    for pos in 0..64 {
        let (x, y) = (pos % 8, pos / 8);
        let on: Vec<usize> = (0..movable.len())
            .filter(|&k| {
                let b = movable[k];
                b.x1 <= x && x <= b.x2 && b.y1 <= y && y <= b.y2
            })
            .collect();
        if on.is_empty() {
            // Wall, exit or floor: as in the record.
            assert_eq!(data[pos], template[pos]);
        } else {
            assert_eq!(on.len(), 1);
            assert_eq!(data[pos] as usize, on[0] + 1);
        }
    }
    // The first run, in row 1, holds 1; the player is the fourth run.
    assert_eq!(data[8 + 1], 1);
    assert_eq!(data[8 + 3], 1);
    assert_eq!(data[8 + 6], 2);
    assert_eq!(data[2 * 8 + 3], 3);
    assert_eq!(data[3 * 8 + 1], 4);
    assert_eq!(data[3 * 8 + 2], 4);
    assert_eq!(data[3 * 8 + 7], b'^');
    assert_eq!(data[0], b'&');
    assert_eq!(data[8 + 4], b'*');
}

#[test]
fn five_pieces_are_numbered_one_to_five() {
    let level = parsed("&&&&&&&&&|--__*&&|*****&&(==***^&(*****&&******&&******&&&&&&&&&");
    let pieces: Vec<(BlockType, BlockDir, usize, usize, usize, usize)> = shapes(level.blocks())
        .into_iter()
        .filter(|s| s.1 != BlockDir::Static)
        .collect();
    assert_eq!(
        pieces,
        vec![
            (BlockType::Other(b'|'), BlockDir::UpDown, 1, 1, 1, 2),
            (BlockType::Other(b'-'), BlockDir::LeftRight, 2, 1, 3, 1),
            (BlockType::Other(b'_'), BlockDir::LeftRight, 4, 1, 5, 1),
            (BlockType::Other(b'('), BlockDir::UpDown, 1, 3, 1, 4),
            (BlockType::Player, BlockDir::LeftRight, 2, 3, 3, 3),
        ]
    );
    let data = level.data();
    for (k, p) in pieces.iter().enumerate() {
        for x in p.2..=p.4 {
            for y in p.3..=p.5 {
                assert_eq!(data[x + 8 * y] as usize, k + 1);
            }
        }
    }
    assert_eq!(data[0], b'&');
    assert_eq!(data[3 * 8 + 7], b'^');
    assert_eq!(data[8 + 6], b'*');
}

#[test]
fn decode_encode_decode_keeps_the_blocks() {
    let records = [
        SAMPLE,
        "&&&&&&&&&******&&******&&==****^&******&&******&&******&&&&&&&&&",
        "-_-_-_-_|(|(|(|(========^^^^^^^^&&&&&&&&********xyzXYZ12--__||((",
        "||||||||||||||||((((((((((((((((--------________========--------",
        "----------------------------------------------------------------",
        "================================================================",
        "abcdefghijklmnopqrstuvwxyzABCDEFGHIJKLMNOPQRSTUVWXYZ0123456789+/",
    ];
    for text in records {
        let record = record_of(text);
        let (first, grid1) = decode(&record);
        let again = encode(&first);
        let (second, grid2) = decode(&again);
        assert_eq!(first, second);
        assert_eq!(grid1, grid2);
        assert_eq!(encode(&second), again);
    }
}

#[test]
fn unknown_glyphs_are_floor() {
    let text = "abc def\nghi#jkl\r\nmnopqrstuvwxyzABCDEFGHIJKLMNOPQRSTUVWXYZ0123456789+/$%!?";
    let level = parsed(text);
    assert_eq!(level.blocks().len(), 0);
    assert_eq!(level.data(), [b'*'; 64]);
    assert_eq!(level.serialize(), [b'*'; 64]);
    // The record as read keeps the glyphs.
    assert_eq!(level.template()[0], b'a');
    assert_eq!(level.template()[3], b'd');
    assert_eq!(level.template()[9], b'#');
}

#[test]
fn runs_stop_at_the_end_of_a_row() {
    let mut text = String::new();
    text.push_str("******--");
    text.push_str("--******");
    text.push_str(&"*".repeat(48));
    let level = parsed(&text);
    assert_eq!(
        shapes(level.blocks()),
        vec![
            (BlockType::Other(b'-'), BlockDir::LeftRight, 6, 0, 7, 0),
            (BlockType::Other(b'-'), BlockDir::LeftRight, 0, 1, 1, 1),
        ]
    );
}

#[test]
fn runs_stop_at_the_bottom_and_at_the_last_cell() {
    let mut text = "*".repeat(48);
    text.push_str("|*******");
    text.push_str("|*****==");
    let level = parsed(&text);
    assert_eq!(
        shapes(level.blocks()),
        vec![
            (BlockType::Other(b'|'), BlockDir::UpDown, 0, 6, 0, 7),
            (BlockType::Player, BlockDir::LeftRight, 6, 7, 7, 7),
        ]
    );
}

#[test]
fn neighbours_of_the_other_glyph_are_separate_blocks() {
    let mut text = String::from("--__-***");
    text.push_str("|*******");
    text.push_str("|*******");
    text.push_str("(*******");
    text.push_str("(*******");
    text.push_str(&"*".repeat(24));
    let level = parsed(&text);
    assert_eq!(
        shapes(level.blocks()),
        vec![
            (BlockType::Other(b'-'), BlockDir::LeftRight, 0, 0, 1, 0),
            (BlockType::Other(b'_'), BlockDir::LeftRight, 2, 0, 3, 0),
            (BlockType::Other(b'-'), BlockDir::LeftRight, 4, 0, 4, 0),
            (BlockType::Other(b'|'), BlockDir::UpDown, 0, 1, 0, 2),
            (BlockType::Other(b'('), BlockDir::UpDown, 0, 3, 0, 4),
        ]
    );
    assert_eq!(level.to_string(), text);
}

#[test]
fn one_cell_player_slides_left_and_right() {
    let mut text = String::from("*=******");
    text.push_str(&"*".repeat(56));
    let level = parsed(&text);
    assert_eq!(shapes(level.blocks()), vec![(BlockType::Player, BlockDir::LeftRight, 1, 0, 1, 0)]);
}

#[test]
fn numbers_pass_over_the_marks() {
    let text = "-_".repeat(32);
    let level = parsed(&text);
    assert_eq!(level.blocks().len(), 64);
    let data = level.data();
    let mut expected = Vec::new();
    let mut next = 1u8;
    while expected.len() < 64 {
        if next != b'&' && next != b'*' && next != b'^' {
            expected.push(next);
        }
        next += 1;
    }
    assert_eq!(expected[36], 37);
    assert_eq!(expected[37], 39);
    assert_eq!(expected[40], 43);
    assert_eq!(expected[63], 66);
    assert_eq!(data.to_vec(), expected);
    assert_eq!(level.to_string(), text);
}

#[test]
fn a_piece_is_never_taken_for_floor() {
    // 42 pieces of one cell each; the last two stand at the left of row 5.
    let mut text = "-_".repeat(21);
    text.push_str(&"*".repeat(22));
    let mut level = parsed(&text);
    assert_eq!(level.data()[40], 43);
    assert_eq!(level.data()[41], 44);
    // The piece at column 0 cannot pass the one at column 1.
    level.begin_drag(75, 75 + 50 * 5);
    assert_eq!(level.drag_target(), Some(40));
    level.drag_to(75 + 50 * 7, 75 + 50 * 5);
    assert_eq!(level.blocks()[40].target_x, 0);
    level.end_drag();
    // The one at column 1 goes to the far end, and the other can follow.
    level.begin_drag(75 + 50, 75 + 50 * 5);
    assert_eq!(level.drag_target(), Some(41));
    level.drag_to(75 + 50 * 7, 75 + 50 * 5);
    assert_eq!(level.blocks()[41].target_x, 7);
    level.end_drag();
    level.begin_drag(75, 75 + 50 * 5);
    level.drag_to(75 + 50 * 7, 75 + 50 * 5);
    assert_eq!(level.blocks()[40].target_x, 6);
    level.end_drag();
    assert_eq!(level.data()[46], 43);
    assert_eq!(level.data()[47], 44);
    assert_eq!(level.data()[40], b'*');
}

#[test]
fn every_block_keeps_to_its_axis_after_parse() {
    let level = parsed(SAMPLE);
    for b in level.blocks() {
        match b.dir {
            BlockDir::LeftRight => assert_eq!(b.y1, b.y2),
            BlockDir::UpDown => assert_eq!(b.x1, b.x2),
            BlockDir::Static => assert_eq!((b.x1, b.y1), (b.x2, b.y2)),
        }
        assert!(b.x1 <= b.x2 && b.x2 < 8 && b.y1 <= b.y2 && b.y2 < 8);
    }
}

#[test]
fn new_level_is_an_empty_board() {
    let level = Level::new();
    assert_eq!(level.blocks().len(), 0);
    assert_eq!(level.data(), [b'*'; 64]);
    assert_eq!(level.template(), [b'*'; 64]);
    assert_eq!(level.size(), (500, 500));
    assert_eq!(level.mouse_pos(), (0, 0));
    assert_eq!(level.drag_target(), None);
    assert_eq!(level.drag_origin(), None);
    assert!(!level.solved());
    assert_eq!(level.moves().len(), 0);
    assert_eq!(level.to_string(), "*".repeat(64));
}

#[test]
fn parse_replaces_the_level() {
    let mut level = parsed(SAMPLE);
    level.begin_drag(75 + 50 * 5, 75 + 50 * 4);
    level.drag_to(75 + 50 * 4, 75 + 50 * 4);
    level.end_drag();
    assert_eq!(level.moves().len(), 1);
    let mut more = "==".to_string();
    more.push_str(&"*".repeat(62));
    more.push_str("&&");
    let mut stream = ByteStream::new(more.into_bytes());
    level.parse(&mut stream);
    assert_eq!(stream.remaining(), 2);
    assert_eq!(shapes(level.blocks()), vec![(BlockType::Player, BlockDir::LeftRight, 0, 0, 1, 0)]);
    assert_eq!(level.data()[0], 1);
    assert_eq!(level.data()[1], 1);
    assert_eq!(level.data()[2], b'*');
    assert_eq!(level.moves().len(), 0);
    assert_eq!(level.drag_target(), None);
    assert!(!level.solved());
}

#[test]
fn from_record_is_the_level_of_the_record() {
    let mut record = [0u8; 64];
    record.copy_from_slice(SAMPLE.as_bytes());
    let level = Level::from_record(record);
    let read = parsed(SAMPLE);
    assert_eq!(level.blocks(), read.blocks());
    assert_eq!(level.data(), read.data());
    assert_eq!(level.template(), read.template());
}

#[test]
fn load_error_message() {
    assert_eq!(LoadError::NotEnoughData.message(), "Not enough level data");
}
