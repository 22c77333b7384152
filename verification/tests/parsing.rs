//! The map loader: glyph-to-tile mapping, bottom-to-top row order, the
//! hint table, and the load failures.

use snake_rewind::grid::{BottomTileType, GridPos, TopTileType};
use snake_rewind::level::{init_rewinds, parse_map, MapError};
use snake_rewind::snake::RewindCounter;

fn chars(s: &str) -> Vec<char> {
    s.chars().collect()
}

#[test]
fn three_by_one_map() {
    let m = parse_map(&chars("%.|")).unwrap();
    assert_eq!(m.width(), 3);
    assert_eq!(m.height(), 1);
    assert_eq!(m.get(GridPos { x: 0, y: 0 }).unwrap().top, TopTileType::Snake);
    assert_eq!(m.get(GridPos { x: 1, y: 0 }).unwrap().top, TopTileType::Nothing);
    assert_eq!(m.get(GridPos { x: 1, y: 0 }).unwrap().bottom, BottomTileType::Nothing);
    assert_eq!(m.get(GridPos { x: 2, y: 0 }).unwrap().top, TopTileType::Nothing);
    assert_eq!(m.get(GridPos { x: 2, y: 0 }).unwrap().bottom, BottomTileType::Exit);
    assert!(m.get(GridPos { x: 3, y: 0 }).is_none());
    assert!(m.get(GridPos { x: 0, y: 1 }).is_none());
}

#[test]
fn rows_read_bottom_to_top() {
    let m = parse_map(&chars("#.\n%$")).unwrap();
    assert_eq!(m.width(), 2);
    assert_eq!(m.height(), 2);
    // The last text row is the bottom row, y = 0.
    assert_eq!(m.get(GridPos { x: 0, y: 0 }).unwrap().top, TopTileType::Snake);
    assert_eq!(m.get(GridPos { x: 1, y: 0 }).unwrap().bottom, BottomTileType::Spike);
    assert_eq!(m.get(GridPos { x: 0, y: 1 }).unwrap().top, TopTileType::Wall);
    assert_eq!(m.get(GridPos { x: 1, y: 1 }).unwrap().top, TopTileType::Nothing);
}

#[test]
fn plate_door_and_anti_door_glyphs() {
    let m = parse_map(&chars("zZA")).unwrap();
    let plate = m.get(GridPos { x: 0, y: 0 }).unwrap();
    assert_eq!(plate.top, TopTileType::Nothing);
    assert_eq!(plate.bottom, BottomTileType::PressurePlate('Z'));
    let door = m.get(GridPos { x: 1, y: 0 }).unwrap();
    assert_eq!(door.top, TopTileType::Door('Z'));
    assert_eq!(door.bottom, BottomTileType::Nothing);
    let anti = m.get(GridPos { x: 2, y: 0 }).unwrap();
    assert_eq!(anti.top, TopTileType::Nothing);
    assert_eq!(anti.bottom, BottomTileType::AntiDoor('Z'));
}

#[test]
fn anti_door_channels_map_positionally() {
    let m = parse_map(&chars("ASDFGHJ")).unwrap();
    let expected = ['Z', 'X', 'C', 'V', 'B', 'N', 'M'];
    for (x, want) in expected.iter().enumerate() {
        assert_eq!(
            m.get(GridPos { x, y: 0 }).unwrap().bottom,
            BottomTileType::AntiDoor(*want)
        );
    }
}

#[test]
fn plate_channels_are_uppercased() {
    let m = parse_map(&chars("zxcvbnm")).unwrap();
    let expected = ['Z', 'X', 'C', 'V', 'B', 'N', 'M'];
    for (x, want) in expected.iter().enumerate() {
        assert_eq!(
            m.get(GridPos { x, y: 0 }).unwrap().bottom,
            BottomTileType::PressurePlate(*want)
        );
    }
}

#[test]
fn digit_glyph_with_hint_becomes_wall_with_text() {
    let m = parse_map(&chars("%3\nSPLIT_HERE\n3::press the plates")).unwrap();
    let t = m.get(GridPos { x: 1, y: 0 }).unwrap();
    assert_eq!(t.top, TopTileType::Wall);
    match &t.bottom {
        BottomTileType::TextHint(text) => {
            let got: String = text.iter().collect();
            assert_eq!(got, "press the plates");
        }
        other => panic!("expected a text hint, got {:?}", other),
    }
}

#[test]
fn later_hint_entries_overwrite_earlier_ones() {
    let m = parse_map(&chars("0\nSPLIT_HERE\n0::first\n0::second")).unwrap();
    match &m.get(GridPos { x: 0, y: 0 }).unwrap().bottom {
        BottomTileType::TextHint(text) => {
            let got: String = text.iter().collect();
            assert_eq!(got, "second");
        }
        other => panic!("expected a text hint, got {:?}", other),
    }
}

#[test]
fn digit_glyph_without_hint_degrades_to_empty_tile() {
    let m = parse_map(&chars("%7")).unwrap();
    let t = m.get(GridPos { x: 1, y: 0 }).unwrap();
    assert_eq!(t.top, TopTileType::Nothing);
    assert_eq!(t.bottom, BottomTileType::Nothing);
}

#[test]
fn malformed_hint_lines_are_skipped() {
    let m = parse_map(&chars("5\nSPLIT_HERE\nno separator\nx5::bad key\n::empty\n5::good")).unwrap();
    match &m.get(GridPos { x: 0, y: 0 }).unwrap().bottom {
        BottomTileType::TextHint(text) => {
            let got: String = text.iter().collect();
            assert_eq!(got, "good");
        }
        other => panic!("expected a text hint, got {:?}", other),
    }
}

#[test]
fn out_of_range_hint_key_is_ignored() {
    let m = parse_map(&chars("9\nSPLIT_HERE\n20::far away")).unwrap();
    let t = m.get(GridPos { x: 0, y: 0 }).unwrap();
    assert_eq!(t.top, TopTileType::Nothing);
    assert_eq!(t.bottom, BottomTileType::Nothing);
}

#[test]
fn empty_input_fails_to_load() {
    assert_eq!(parse_map(&chars("")).unwrap_err(), MapError::EmptyMap);
    assert_eq!(parse_map(&chars("  \n\n  ")).unwrap_err(), MapError::EmptyMap);
}

#[test]
fn ragged_rows_fail_to_load() {
    assert_eq!(
        parse_map(&chars("##\n###")).unwrap_err(),
        MapError::InconsistentRows
    );
}

#[test]
fn surrounding_whitespace_is_trimmed() {
    let m = parse_map(&chars("\n  \n%#\n.#\n\n")).unwrap();
    assert_eq!(m.width(), 2);
    assert_eq!(m.height(), 2);
    assert_eq!(m.get(GridPos { x: 0, y: 1 }).unwrap().top, TopTileType::Snake);
}

#[test]
fn crlf_line_endings_are_accepted() {
    let m = parse_map(&chars("%#\r\n.#")).unwrap();
    assert_eq!(m.width(), 2);
    assert_eq!(m.height(), 2);
}

#[test]
fn unknown_glyphs_are_empty_tiles() {
    let m = parse_map(&chars("?q. ~")).unwrap();
    for x in 0..5 {
        let t = m.get(GridPos { x, y: 0 }).unwrap();
        assert_eq!(t.top, TopTileType::Nothing);
        assert_eq!(t.bottom, BottomTileType::Nothing);
    }
}

#[test]
fn level_budgets() {
    assert_eq!(init_rewinds(1), RewindCounter { total: 2, individual: 1 });
    assert_eq!(init_rewinds(2), RewindCounter { total: 50, individual: 100 });
    assert_eq!(init_rewinds(3), RewindCounter { total: 0, individual: 10 });
    assert_eq!(init_rewinds(8), RewindCounter { total: 1, individual: 30 });
    assert_eq!(init_rewinds(15), RewindCounter { total: 4, individual: 30 });
    assert_eq!(init_rewinds(16), RewindCounter { total: 100, individual: 100 });
    assert_eq!(init_rewinds(0), RewindCounter { total: 100, individual: 100 });
}
