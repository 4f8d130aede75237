use insight::error::ReplayError;
use insight::game_data::{GameData, Tile};
use insight::palette::{Color, Shape};
use insight::text::Decimal;

fn dec(digits: u64, places: u32) -> Decimal {
    Decimal { digits, places }
}

fn value(d: Decimal) -> f64 {
    d.digits as f64 / 10f64.powi(d.places as i32)
}

fn load(text: &str) -> Result<GameData, ReplayError> {
    GameData::load(text.as_bytes())
}

#[test]
fn parse_correctness() {
    let g = load("2 2\nA 1 0 0 1 0\nturn\nAA\nAA\nend\n").unwrap();
    assert_eq!(g.num_turns(), 1);
    let tiles = g.tiles(0).unwrap();
    assert_eq!(tiles.len(), 4);
    let mut cells: Vec<(u32, u32)> = tiles.iter().map(|t| (t.row, t.col)).collect();
    cells.sort();
    assert_eq!(cells, vec![(0, 0), (0, 1), (1, 0), (1, 1)]);
    for t in &tiles {
        assert_eq!(t.shape, Shape::Circle);
        assert_eq!(t.layer, 0);
        assert_eq!(value(t.color.red), 1.0);
        assert_eq!(value(t.color.green), 0.0);
        assert_eq!(value(t.color.blue), 0.0);
        assert_eq!(value(t.color.alpha), 1.0);
    }
}

#[test]
fn sparse_cells_yield_no_tiles() {
    let text = "2 3 2\nA 1 0 0 1 0\nB s 0 1 0 1 1\nturn\nA. .B AB\n.. A. ..\nend\n";
    let g = load(text).unwrap();
    let tiles = g.tiles(0).unwrap();
    assert_eq!(tiles.len(), 5);
    let cells: Vec<(u32, u32, u8)> = tiles.iter().map(|t| (t.row, t.col, t.layer)).collect();
    assert_eq!(cells, vec![(0, 0, 0), (0, 1, 1), (0, 2, 0), (0, 2, 1), (1, 1, 0)]);
    assert_eq!(tiles[1].shape, Shape::Square);
}

#[test]
fn all_dots_give_an_empty_turn() {
    let g = load("1 2\nA 1 0 0 1\nturn\n. .\nend\n").unwrap();
    assert_eq!(g.tiles(0).unwrap().len(), 0);
}

#[test]
fn unknown_symbol_fails_the_load() {
    let r = load("1 2\nA 1 0 0 1\nturn\nA Z\nend\n");
    assert!(matches!(r, Err(ReplayError::UnknownSymbol)));
    let later = load("1 1\nA 1 0 0 1\nturn\nA\nturn\nZ\nend\n");
    assert!(matches!(later, Err(ReplayError::UnknownSymbol)));
}

#[test]
fn tiles_are_restartable() {
    let g = load("2 2\nA 1 0 0 1\nB c 0 0 1 1 2\nturn\nAB .A\nB. ..\nend\n").unwrap();
    let first = g.tiles(0).unwrap();
    let second = g.tiles(0).unwrap();
    assert_eq!(first, second);
    assert_eq!(first.len(), 4);
}

#[test]
fn several_turns_and_annotations() {
    let text = "1 2\nA 1 0 0 1\nturn\nA .\nscore 3 4\n\nturn\nA A\nturn\n. .\nend\nignored after end\n";
    let g = load(text).unwrap();
    assert_eq!(g.num_turns(), 3);
    assert_eq!(g.tiles(0).unwrap().len(), 1);
    assert_eq!(g.tiles(1).unwrap().len(), 2);
    assert_eq!(g.tiles(2).unwrap().len(), 0);
}

#[test]
fn missing_end_closes_the_last_turn() {
    let g = load("1 1\nA 1 0 0 1\nturn\nA\nturn\nA").unwrap();
    assert_eq!(g.num_turns(), 2);
    assert_eq!(g.tiles(1).unwrap().len(), 1);
}

#[test]
fn turn_out_of_range() {
    let g = load("1 1\nA 1 0 0 1\nturn\nA\nend\n").unwrap();
    assert!(matches!(g.tiles(1), Err(ReplayError::IndexOutOfRange)));
}

#[test]
fn background_line() {
    let g = load("3 4\n0.5 0.25 1\nA c 1 0 0 1 9\nturn\nA A A A\n. . . .\nA . . A\nend\n").unwrap();
    let bg = g.background_color();
    assert_eq!(bg.red, dec(5, 1));
    assert_eq!(bg.green, dec(25, 2));
    assert_eq!(bg.blue, dec(1, 0));
    assert_eq!(g.num_rows(), 3);
    assert_eq!(g.num_cols(), 4);
    assert_eq!(g.num_layers(), 1);
    let tiles = g.tiles(0).unwrap();
    assert_eq!(tiles.len(), 6);
    assert_eq!(
        tiles[5],
        Tile {
            row: 2,
            col: 3,
            layer: 9,
            shape: Shape::Circle,
            color: Color { red: dec(1, 0), green: dec(0, 0), blue: dec(0, 0), alpha: dec(1, 0) },
        }
    );
}

#[test]
fn default_background_is_black() {
    let g = load("1 1\nA 1 0 0 1\nturn\nA\nend\n").unwrap();
    let bg = g.background_color();
    assert_eq!(bg.red, dec(0, 0));
    assert_eq!(bg.green, dec(0, 0));
    assert_eq!(bg.blue, dec(0, 0));
}

#[test]
fn malformed_header() {
    assert!(matches!(load(""), Err(ReplayError::MalformedHeader)));
    assert!(matches!(load("x 2\nA 1 0 0 1\nturn\nA A\nend\n"), Err(ReplayError::MalformedHeader)));
    assert!(matches!(load("2\n"), Err(ReplayError::MalformedHeader)));
    assert!(matches!(load("1 1 0\nA 1 0 0 1\nturn\nA\nend\n"), Err(ReplayError::MalformedHeader)));
}

#[test]
fn too_many_layers() {
    assert!(matches!(load("1 1 11\nA 1 0 0 1\nturn\nA\nend\n"), Err(ReplayError::InvalidLayer)));
    assert!(matches!(load("1 1\nA 1 0 0 1 10\nturn\nA\nend\n"), Err(ReplayError::InvalidLayer)));
}

#[test]
fn malformed_palette() {
    assert!(matches!(load("1 1\nA 1 0 0 1\n"), Err(ReplayError::MalformedPalette)));
    assert!(matches!(load("1 1\nA 1 0 x 1\nturn\nA\nend\n"), Err(ReplayError::MalformedPalette)));
    assert!(matches!(load("1 1\nA 1 0\nturn\nA\nend\n"), Err(ReplayError::MalformedPalette)));
}

#[test]
fn duplicate_symbol() {
    let r = load("1 1\nA 1 0 0 1\nA 0 1 0 1\nturn\nA\nend\n");
    assert!(matches!(r, Err(ReplayError::DuplicateSymbol)));
}

#[test]
fn malformed_grid() {
    assert!(matches!(load("2 2\nA 1 0 0 1\nturn\nA A\n"), Err(ReplayError::MalformedGrid)));
    assert!(matches!(load("1 3\nA 1 0 0 1\nturn\nA A\nend\n"), Err(ReplayError::MalformedGrid)));
}

#[test]
fn compact_rows_with_layers() {
    let g = load("1 2 2\nA 1 0 0 1 0\nB 0 0 1 1 1\nturn\nA.AB\nend\n").unwrap();
    let cells: Vec<(u32, u32, u8)> =
        g.tiles(0).unwrap().iter().map(|t| (t.row, t.col, t.layer)).collect();
    assert_eq!(cells, vec![(0, 0, 0), (0, 1, 0), (0, 1, 1)]);
}
