//! The replay format, line by line: the header, the background colour and
//! the palette lines.
use vstd::prelude::*;

use crate::error::ReplayError;
use crate::palette::{Color, MAX_LAYERS, PaletteEntry, Rgb, Shape};
use crate::text::{Words, parse_decimal, parse_decimal_spec, parse_u32, parse_u32_spec};

verus! {

/// The letter that makes a palette entry a circle.
pub const CIRCLE_LETTER: u8 = 99;

/// The board's size, from the first line.
#[derive(Clone, Copy, Debug, PartialEq, Eq, Structural)]
pub struct Header {
    pub num_rows: u32,
    pub num_cols: u32,
    pub num_layers: u32,
}

/// The keyword `turn`, which closes the palette and starts each turn.
pub open spec fn turn_word() -> Seq<u8> {
    seq![116u8, 117u8, 114u8, 110u8]
}

/// The keyword `end`, which closes the last turn.
pub open spec fn end_word() -> Seq<u8> {
    seq![101u8, 110u8, 100u8]
}

/// Whether a line's first word is `kw`.
pub open spec fn starts_with_word(ws: Seq<Seq<u8>>, kw: Seq<u8>) -> bool {
    ws.len() > 0 && ws[0] == kw
}

pub fn is_turn_word(w: &Vec<u8>) -> (r: bool)
    ensures
        r == (w@ == turn_word()),
{
    let r = w.len() == 4 && w[0] == 116 && w[1] == 117 && w[2] == 114 && w[3] == 110;
    if r {
        assert(w@ =~= turn_word());
    }
    r
}

pub fn is_end_word(w: &Vec<u8>) -> (r: bool)
    ensures
        r == (w@ == end_word()),
{
    let r = w.len() == 3 && w[0] == 101 && w[1] == 110 && w[2] == 100;
    if r {
        assert(w@ =~= end_word());
    }
    r
}

/// The header: `<rows> <cols>` and, optionally, `<layers>`, which is 1 when
/// left out, at least 1, and at most `MAX_LAYERS`.
pub open spec fn header_spec(ws: Seq<Seq<u8>>) -> Result<Header, ReplayError> {
    if ws.len() < 2 || ws.len() > 3 {
        Err(ReplayError::MalformedHeader)
    } else {
        let rows = parse_u32_spec(ws[0]);
        let cols = parse_u32_spec(ws[1]);
        let layers = if ws.len() == 3 {
            parse_u32_spec(ws[2])
        } else {
            Some(1u32)
        };
        if rows is None || cols is None || layers is None || layers->0 == 0 {
            Err(ReplayError::MalformedHeader)
        } else if layers->0 > MAX_LAYERS {
            Err(ReplayError::InvalidLayer)
        } else {
            Ok(Header { num_rows: rows->0, num_cols: cols->0, num_layers: layers->0 })
        }
    }
}

pub fn parse_header(ws: &Words) -> (r: Result<Header, ReplayError>)
    ensures
        r == header_spec(ws.deep_view()),
{
    proof {
        assert forall|k: int| 0 <= k < ws@.len() implies ws.deep_view()[k] == (#[trigger] ws@[k])@ by {
            assert(ws@[k].deep_view() =~= ws@[k]@);
        }
    }
    if ws.len() < 2 || ws.len() > 3 {
        return Err(ReplayError::MalformedHeader);
    }
    let rows = parse_u32(&ws[0]);
    let cols = parse_u32(&ws[1]);
    let layers = if ws.len() == 3 {
        parse_u32(&ws[2])
    } else {
        Some(1u32)
    };
    match (rows, cols, layers) {
        (Some(num_rows), Some(num_cols), Some(num_layers)) => {
            if num_layers == 0 {
                Err(ReplayError::MalformedHeader)
            } else if num_layers > MAX_LAYERS {
                Err(ReplayError::InvalidLayer)
            } else {
                Ok(Header { num_rows, num_cols, num_layers })
            }
        },
        _ => Err(ReplayError::MalformedHeader),
    }
}

/// A background line: exactly three decimal numbers, red, green and blue.
pub open spec fn background_spec(ws: Seq<Seq<u8>>) -> Option<Rgb> {
    if ws.len() == 3 && parse_decimal_spec(ws[0]) is Some && parse_decimal_spec(ws[1]) is Some
        && parse_decimal_spec(ws[2]) is Some {
        Some(
            Rgb {
                red: parse_decimal_spec(ws[0])->0,
                green: parse_decimal_spec(ws[1])->0,
                blue: parse_decimal_spec(ws[2])->0,
            },
        )
    } else {
        None
    }
}

pub fn parse_background(ws: &Words) -> (r: Option<Rgb>)
    ensures
        r == background_spec(ws.deep_view()),
{
    proof {
        assert forall|k: int| 0 <= k < ws@.len() implies ws.deep_view()[k] == (#[trigger] ws@[k])@ by {
            assert(ws@[k].deep_view() =~= ws@[k]@);
        }
    }
    if ws.len() != 3 {
        return None;
    }
    match (parse_decimal(&ws[0]), parse_decimal(&ws[1]), parse_decimal(&ws[2])) {
        (Some(red), Some(green), Some(blue)) => Some(Rgb { red, green, blue }),
        _ => None,
    }
}

/// Whether a palette line gives a shape letter: its second word is there
/// and is not a number.
pub open spec fn has_shape_letter(ws: Seq<Seq<u8>>) -> bool {
    ws.len() > 1 && parse_decimal_spec(ws[1]) is None
}

/// The shape of a palette line: a circle for the letter `c` or when no
/// letter is given, a square for any other letter.
pub open spec fn shape_spec(ws: Seq<Seq<u8>>) -> Shape {
    if has_shape_letter(ws) && !(ws[1].len() > 0 && ws[1][0] == CIRCLE_LETTER) {
        Shape::Square
    } else {
        Shape::Circle
    }
}

/// A palette line: `<symbol> [<shape letter>] <r> <g> <b> <a> [<layer>]`.
/// The symbol is the first character of the first word; the layer is 0 when
/// left out and must be below `MAX_LAYERS`.
pub open spec fn entry_spec(ws: Seq<Seq<u8>>) -> Result<PaletteEntry, ReplayError> {
    let k: int = if has_shape_letter(ws) {
        2
    } else {
        1
    };
    let n = ws.len() - k;
    if ws.len() == 0 || ws[0].len() == 0 || n < 4 || n > 5 {
        Err(ReplayError::MalformedPalette)
    } else if parse_decimal_spec(ws[k]) is None || parse_decimal_spec(ws[k + 1]) is None
        || parse_decimal_spec(ws[k + 2]) is None || parse_decimal_spec(ws[k + 3]) is None {
        Err(ReplayError::MalformedPalette)
    } else if n == 5 && parse_u32_spec(ws[k + 4]) is None {
        Err(ReplayError::MalformedPalette)
    } else if n == 5 && parse_u32_spec(ws[k + 4])->0 >= MAX_LAYERS {
        Err(ReplayError::InvalidLayer)
    } else {
        Ok(
            PaletteEntry {
                symbol: ws[0][0],
                shape: shape_spec(ws),
                color: Color {
                    red: parse_decimal_spec(ws[k])->0,
                    green: parse_decimal_spec(ws[k + 1])->0,
                    blue: parse_decimal_spec(ws[k + 2])->0,
                    alpha: parse_decimal_spec(ws[k + 3])->0,
                },
                layer: if n == 5 {
                    parse_u32_spec(ws[k + 4])->0 as u8
                } else {
                    0
                },
            },
        )
    }
}

pub fn parse_entry(ws: &Words) -> (r: Result<PaletteEntry, ReplayError>)
    ensures
        r == entry_spec(ws.deep_view()),
        r matches Ok(e) ==> e.layer < MAX_LAYERS,
{
    proof {
        assert forall|k: int| 0 <= k < ws@.len() implies ws.deep_view()[k] == (#[trigger] ws@[k])@ by {
            assert(ws@[k].deep_view() =~= ws@[k]@);
        }
    }
    let has_shape = ws.len() > 1 && parse_decimal(&ws[1]).is_none();
    let k: usize = if has_shape {
        2
    } else {
        1
    };
    if ws.len() == 0 || ws[0].len() == 0 || ws.len() < k + 4 || ws.len() > k + 5 {
        return Err(ReplayError::MalformedPalette);
    }
    let shape = if has_shape && !(ws[1].len() > 0 && ws[1][0] == CIRCLE_LETTER) {
        Shape::Square
    } else {
        Shape::Circle
    };
    let red = parse_decimal(&ws[k]);
    let green = parse_decimal(&ws[k + 1]);
    let blue = parse_decimal(&ws[k + 2]);
    let alpha = parse_decimal(&ws[k + 3]);
    let color = match (red, green, blue, alpha) {
        (Some(red), Some(green), Some(blue), Some(alpha)) => Color { red, green, blue, alpha },
        _ => {
            return Err(ReplayError::MalformedPalette);
        },
    };
    let layer: u8 = if ws.len() == k + 5 {
        match parse_u32(&ws[k + 4]) {
            Some(l) => {
                if l >= MAX_LAYERS {
                    return Err(ReplayError::InvalidLayer);
                }
                l as u8
            },
            None => {
                return Err(ReplayError::MalformedPalette);
            },
        }
    } else {
        0
    };
    Ok(PaletteEntry { symbol: ws[0][0], shape, color, layer })
}

} // verus!
