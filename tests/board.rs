use insight::board::{Board, Object};
use insight::error::ReplayError;
use insight::palette::{Color, Shape};
use insight::text::Decimal;

fn dec(digits: u64, places: u32) -> Decimal {
    Decimal { digits, places }
}

#[test]
fn board_objects_are_squares() {
    let b = Board::open(b"2 2\nA 1 0 0 1\nB 0 0.5 0 1\nturn\nA B\nB A\nturn\nA A\n. .\nend\n").unwrap();
    assert_eq!(b.num_turns(), 2);
    assert_eq!(b.num_rows(), 2);
    assert_eq!(b.num_cols(), 2);
    let objects = b.objects(0).unwrap();
    assert_eq!(objects.len(), 4);
    assert!(objects.iter().all(|o| o.shape == Shape::Square));
    assert_eq!(
        objects[1],
        Object {
            row: 0,
            col: 1,
            shape: Shape::Square,
            color: Color { red: dec(0, 0), green: dec(5, 1), blue: dec(0, 0), alpha: dec(1, 0) },
        }
    );
    assert_eq!(b.objects(1).unwrap().len(), 2);
    assert!(matches!(b.objects(2), Err(ReplayError::IndexOutOfRange)));
}

#[test]
fn board_rejects_unknown_symbols() {
    assert!(matches!(Board::open(b"1 1\nA 1 0 0 1\nturn\nX\nend\n"), Err(ReplayError::UnknownSymbol)));
}
