//! The replay: loaded once from its text, then read turn by turn.
use vstd::prelude::*;

use crate::error::ReplayError;
use crate::format::{
    Header,
    background_spec,
    end_word,
    entry_spec,
    header_spec,
    is_end_word,
    is_turn_word,
    parse_background,
    parse_entry,
    parse_header,
    starts_with_word,
    turn_word,
};
use crate::grid::{
    EMPTY_CELL,
    TileRecord,
    cell_of,
    grid_records,
    lemma_unknown_symbol_fails,
    parse_grid,
    records_in_bounds,
    row_well_formed,
};
use crate::palette::{
    Color,
    MAX_LAYERS,
    Palette,
    PaletteEntry,
    Rgb,
    Shape,
    black,
    black_rgb,
    symbol_index,
};
use vstd::arithmetic::div_mod::lemma_multiply_divide_lt;

use crate::text::{Words, lemma_words_view, split_into_lines, split_lines};

verus! {

/// A tile of a turn, resolved through the palette.
#[derive(Clone, Copy, Debug, PartialEq, Eq, Structural)]
pub struct Tile {
    pub row: u32,
    pub col: u32,
    pub layer: u8,
    pub shape: Shape,
    pub color: Color,
}

/// What a replay holds: the board's size, its background, its palette and,
/// for each turn, the records of its tiles.
pub struct ReplayModel {
    pub header: Header,
    pub background: Rgb,
    pub palette: Seq<PaletteEntry>,
    pub turns: Seq<Seq<TileRecord>>,
}

/// `pal` followed by the entries of the palette lines from line `i` on, and
/// the line after the `turn` that closes them.
pub open spec fn palette_from(ls: Seq<Seq<Seq<u8>>>, i: int, pal: Seq<PaletteEntry>) -> Result<
    (Seq<PaletteEntry>, int),
    ReplayError,
>
    decreases ls.len() - i,
{
    if i < 0 || i >= ls.len() || ls[i].len() == 0 {
        Err(ReplayError::MalformedPalette)
    } else if ls[i][0] == turn_word() {
        Ok((pal, i + 1))
    } else {
        match entry_spec(ls[i]) {
            Err(e) => Err(e),
            Ok(entry) => if symbol_index(pal, entry.symbol) is Some {
                Err(ReplayError::DuplicateSymbol)
            } else {
                palette_from(ls, i + 1, pal.push(entry))
            },
        }
    }
}

/// From line `j` on, the first `turn` or `end` line: whether it is a `turn`,
/// and the line after it. Other lines are annotations, and are skipped; the
/// end of the text counts as an `end`.
pub open spec fn next_marker(ls: Seq<Seq<Seq<u8>>>, j: int) -> (bool, int)
    decreases ls.len() - j,
{
    if j < 0 || j >= ls.len() {
        (false, j)
    } else if starts_with_word(ls[j], end_word()) {
        (false, j + 1)
    } else if starts_with_word(ls[j], turn_word()) {
        (true, j + 1)
    } else {
        next_marker(ls, j + 1)
    }
}

/// `acc` followed by the turns whose first grid line is line `i`.
pub open spec fn turns_from(
    ls: Seq<Seq<Seq<u8>>>,
    i: int,
    h: Header,
    palette: Seq<PaletteEntry>,
    acc: Seq<Seq<TileRecord>>,
) -> Result<Seq<Seq<TileRecord>>, ReplayError>
    decreases ls.len() - i,
{
    match grid_records(ls, i, h, palette) {
        Err(e) => Err(e),
        Ok(records) => {
            let (more, k) = next_marker(ls, i + h.num_rows);
            if more && i < k <= ls.len() {
                turns_from(ls, k, h, palette, acc.push(records))
            } else {
                Ok(acc.push(records))
            }
        },
    }
}

/// The replay that the lines `ls` describe: a header line, an optional
/// background line, the palette up to a `turn` line, then the turns.
pub open spec fn replay_from_lines(ls: Seq<Seq<Seq<u8>>>) -> Result<ReplayModel, ReplayError> {
    if ls.len() == 0 {
        Err(ReplayError::MalformedHeader)
    } else {
        match header_spec(ls[0]) {
            Err(e) => Err(e),
            Ok(h) => {
                let has_background = ls.len() > 1 && background_spec(ls[1]) is Some;
                let background = if has_background {
                    background_spec(ls[1])->0
                } else {
                    black()
                };
                let first = if has_background {
                    2
                } else {
                    1
                };
                match palette_from(ls, first, seq![]) {
                    Err(e) => Err(e),
                    Ok((palette, t)) => match turns_from(ls, t, h, palette, seq![]) {
                        Err(e) => Err(e),
                        Ok(turns) => Ok(ReplayModel { header: h, background, palette, turns }),
                    },
                }
            },
        }
    }
}

/// The replay that the text `s` describes.
pub open spec fn replay_spec(s: Seq<u8>) -> Result<ReplayModel, ReplayError> {
    replay_from_lines(split_lines(s))
}

/// The tile that a record stands for: its cell gives its row and column,
/// its palette entry its layer, shape and colour.
pub open spec fn tile_of(rec: TileRecord, palette: Seq<PaletteEntry>, num_cols: u32) -> Tile {
    let e = palette[rec.palette_index as int];
    Tile {
        row: (rec.position / (num_cols as u64)) as u32,
        col: (rec.position % (num_cols as u64)) as u32,
        layer: e.layer,
        shape: e.shape,
        color: e.color,
    }
}

/// The tiles of turn `t` of a replay, in the order of the grid.
pub open spec fn turn_tiles(m: ReplayModel, t: int) -> Seq<Tile> {
    m.turns[t].map_values(|rec: TileRecord| tile_of(rec, m.palette, m.header.num_cols))
}

/// Reading a turn's tiles twice gives the same tiles in the same order:
/// they depend on the replay and the turn alone, and a replay never changes.
pub proof fn lemma_tiles_restartable(m: ReplayModel, t: int, first: Seq<Tile>, second: Seq<Tile>)
    requires
        first == turn_tiles(m, t),
        second == turn_tiles(m, t),
    ensures
        first == second,
{
}

/// A replay whose first turn names, in a cell of a well formed row, a
/// symbol that its palette lacks fails to load as a whole, with
/// `UnknownSymbol`.
pub proof fn lemma_unknown_symbol_fails_load(
    ls: Seq<Seq<Seq<u8>>>,
    h: Header,
    first: int,
    palette: Seq<PaletteEntry>,
    start: int,
    r0: int,
    c0: int,
    j: int,
)
    requires
        ls.len() > 0,
        header_spec(ls[0]) == Ok::<Header, ReplayError>(h),
        first == (if ls.len() > 1 && background_spec(ls[1]) is Some {
            2int
        } else {
            1int
        }),
        palette_from(ls, first, seq![]) == Ok::<(Seq<PaletteEntry>, int), ReplayError>(
            (palette, start),
        ),
        0 <= r0 < h.num_rows,
        start + r0 < ls.len(),
        forall|i: int| 0 <= i <= r0 ==> row_well_formed(#[trigger] ls[start + i], h),
        0 <= c0 < h.num_cols,
        0 <= j < cell_of(ls[start + r0], c0, h).len(),
        cell_of(ls[start + r0], c0, h)[j] != EMPTY_CELL,
        symbol_index(palette, cell_of(ls[start + r0], c0, h)[j]) is None,
    ensures
        replay_from_lines(ls) == Err::<ReplayModel, ReplayError>(ReplayError::UnknownSymbol),
{
    lemma_palette_start(ls, first, seq![]);
    lemma_unknown_symbol_fails(ls, start, h, palette, r0, c0, j);
}

proof fn lemma_palette_start(ls: Seq<Seq<Seq<u8>>>, i: int, pal: Seq<PaletteEntry>)
    ensures
        palette_from(ls, i, pal) matches Ok((_, t)) ==> t >= 1,
    decreases ls.len() - i,
{
    if 0 <= i < ls.len() && ls[i].len() > 0 && ls[i][0] != turn_word() {
        match entry_spec(ls[i]) {
            Err(e) => {},
            Ok(entry) => {
                if symbol_index(pal, entry.symbol) is None {
                    lemma_palette_start(ls, i + 1, pal.push(entry));
                }
            },
        }
    }
}

pub open spec fn records_view(v: Seq<Vec<TileRecord>>) -> Seq<Seq<TileRecord>> {
    v.map_values(|t: Vec<TileRecord>| t@)
}

/// A loaded replay. It is never changed after loading.
pub struct GameData {
    header: Header,
    background_color: Rgb,
    palette: Palette,
    data: Vec<Vec<TileRecord>>,
}

impl View for GameData {
    type V = ReplayModel;

    closed spec fn view(&self) -> ReplayModel {
        ReplayModel {
            header: self.header,
            background: self.background_color,
            palette: self.palette@,
            turns: records_view(self.data@),
        }
    }
}

fn parse_palette(ls: &Vec<Words>, start: usize) -> (r: Result<(Palette, usize), ReplayError>)
    ensures
        match palette_from(ls.deep_view(), start as int, seq![]) {
            Ok((pal, next)) => r matches Ok((p, n)) && p.wf() && p@ == pal && n == next,
            Err(e) => r matches Err(e2) && e2 == e,
        },
        r matches Ok((_, n)) ==> n <= ls@.len(),
{
    let ghost dv = ls.deep_view();
    let mut palette = Palette::new();
    let mut i: usize = start;
    while i < ls.len()
        invariant
            dv == ls.deep_view(),
            palette.wf(),
            palette_from(dv, start as int, seq![]) == palette_from(dv, i as int, palette@),
        decreases ls@.len() - i,
    {
        let line = &ls[i];
        assert(dv[i as int] == line.deep_view());
        proof {
            lemma_words_view(*line);
        }
        if line.len() == 0 {
            return Err(ReplayError::MalformedPalette);
        }
        if is_turn_word(&line[0]) {
            return Ok((palette, i + 1));
        }
        let entry = match parse_entry(line) {
            Ok(e) => e,
            Err(e) => {
                return Err(e);
            },
        };
        match palette.insert(entry) {
            Ok(()) => {},
            Err(e) => {
                return Err(e);
            },
        }
        i = i + 1;
    }
    Err(ReplayError::MalformedPalette)
}

fn find_marker(ls: &Vec<Words>, j: usize) -> (r: (bool, usize))
    ensures
        (r.0, r.1 as int) == next_marker(ls.deep_view(), j as int),
        r.0 ==> j < r.1 <= ls@.len(),
{
    let ghost dv = ls.deep_view();
    let mut i: usize = j;
    while i < ls.len()
        invariant
            dv == ls.deep_view(),
            j <= i,
            next_marker(dv, j as int) == next_marker(dv, i as int),
        decreases ls@.len() - i,
    {
        let line = &ls[i];
        assert(dv[i as int] == line.deep_view());
        proof {
            lemma_words_view(*line);
        }
        if line.len() > 0 && is_end_word(&line[0]) {
            return (false, i + 1);
        }
        if line.len() > 0 && is_turn_word(&line[0]) {
            return (true, i + 1);
        }
        i = i + 1;
    }
    (false, i)
}

impl GameData {
    /// Every turn's records name cells of the board and entries of the
    /// palette, and there is at least one turn.
    pub closed spec fn wf(&self) -> bool {
        &&& self.palette.wf()
        &&& self.data@.len() >= 1
        &&& forall|t: int|
            0 <= t < self.data@.len() ==> records_in_bounds(
                (#[trigger] self.data@[t])@,
                self.header.num_rows * self.header.num_cols,
                self.palette@.len() as int,
            )
    }

    /// Loads a replay from its text. Any malformed part fails the whole
    /// load. The end of the text after a complete grid closes the last turn
    /// as an `end` line would; inside a grid it leaves the grid malformed.
    pub fn load(text: &[u8]) -> (r: Result<GameData, ReplayError>)
        ensures
            match replay_spec(text@) {
                Ok(m) => r matches Ok(g) && g.wf() && g@ == m,
                Err(e) => r matches Err(e2) && e2 == e,
            },
    {
        let ls = split_into_lines(text);
        let ghost dv = ls.deep_view();
        if ls.len() == 0 {
            return Err(ReplayError::MalformedHeader);
        }
        assert(dv[0] == ls[0].deep_view());
        let header = match parse_header(&ls[0]) {
            Ok(h) => h,
            Err(e) => {
                return Err(e);
            },
        };
        let background = if ls.len() > 1 {
            assert(dv[1] == ls[1].deep_view());
            parse_background(&ls[1])
        } else {
            None
        };
        let (background_color, first) = match background {
            Some(rgb) => (rgb, 2),
            None => (black_rgb(), 1),
        };
        let (palette, t0) = match parse_palette(&ls, first) {
            Ok(p) => p,
            Err(e) => {
                return Err(e);
            },
        };
        let mut data: Vec<Vec<TileRecord>> = Vec::new();
        let mut i: usize = t0;
        assert(records_view(data@) =~= Seq::<Seq<TileRecord>>::empty());
        loop
            invariant
                dv == ls.deep_view(),
                dv == split_lines(text@),
                palette.wf(),
                replay_from_lines(dv) == (match turns_from(dv, i as int, header, palette@, records_view(data@)) {
                    Err(e) => Err(e),
                    Ok(turns) => Ok(ReplayModel { header, background: background_color, palette: palette@, turns }),
                }),
                i <= ls@.len(),
                forall|t: int|
                    0 <= t < data@.len() ==> records_in_bounds(
                        (#[trigger] data@[t])@,
                        header.num_rows * header.num_cols,
                        palette@.len() as int,
                    ),
            decreases ls@.len() - i,
        {
            let records = match parse_grid(&ls, i, header, &palette) {
                Ok(v) => v,
                Err(e) => {
                    return Err(e);
                },
            };
            let n = ls.len();
            assert(header.num_rows == 0 || i + header.num_rows <= n);
            let after = i + header.num_rows as usize;
            let (more, k) = find_marker(&ls, after);
            let ghost before = records_view(data@);
            let ghost recs = records@;
            data.push(records);
            assert(records_view(data@) =~= before.push(recs));
            if !(more && i < k) {
                return Ok(GameData { header, background_color, palette, data });
            }
            i = k;
        }
    }

    /// A loaded replay has at least one turn.
    pub proof fn lemma_has_turns(&self)
        requires
            self.wf(),
        ensures
            self@.turns.len() >= 1,
    {
    }

    pub fn num_turns(&self) -> (r: usize)
        ensures
            r == self@.turns.len(),
    {
        self.data.len()
    }

    pub fn num_rows(&self) -> (r: u32)
        ensures
            r == self@.header.num_rows,
    {
        self.header.num_rows
    }

    pub fn num_cols(&self) -> (r: u32)
        ensures
            r == self@.header.num_cols,
    {
        self.header.num_cols
    }

    pub fn num_layers(&self) -> (r: u32)
        ensures
            r == self@.header.num_layers,
    {
        self.header.num_layers
    }

    pub fn background_color(&self) -> (r: Rgb)
        ensures
            r == self@.background,
    {
        self.background_color
    }

    /// The tiles of turn `turn`, resolved through the palette, in the order
    /// of the grid. Each call computes them afresh from the stored records.
    pub fn tiles(&self, turn: usize) -> (r: Result<Vec<Tile>, ReplayError>)
        requires
            self.wf(),
        ensures
            turn >= self@.turns.len() ==> r == Err::<Vec<Tile>, ReplayError>(
                ReplayError::IndexOutOfRange,
            ),
            turn < self@.turns.len() ==> (r matches Ok(v) && v@ == turn_tiles(self@, turn as int)),
            r matches Ok(v) ==> forall|k: int|
                0 <= k < v@.len() ==> (#[trigger] v@[k]).row < self@.header.num_rows && v@[k].col
                    < self@.header.num_cols && v@[k].layer < MAX_LAYERS,
    {
        if turn >= self.data.len() {
            return Err(ReplayError::IndexOutOfRange);
        }
        let records = &self.data[turn];
        let ghost f = |rec: TileRecord| tile_of(rec, self@.palette, self@.header.num_cols);
        let ghost cells = self.header.num_rows * self.header.num_cols;
        assert(records_in_bounds(records@, cells, self.palette@.len() as int));
        assert(self@.turns[turn as int] == records@);
        let mut out: Vec<Tile> = Vec::new();
        let mut k: usize = 0;
        while k < records.len()
            invariant
                k <= records@.len(),
                records_in_bounds(records@, cells, self.palette@.len() as int),
                cells == self.header.num_rows * self.header.num_cols,
                self.palette@ == self@.palette,
                self.header == self@.header,
                f == (|rec: TileRecord| tile_of(rec, self@.palette, self@.header.num_cols)),
                out@ == records@.take(k as int).map_values(f),
                self.palette.wf(),
                forall|j: int|
                    0 <= j < out@.len() ==> (#[trigger] out@[j]).row < self.header.num_rows
                        && out@[j].col < self.header.num_cols && out@[j].layer < MAX_LAYERS,
            decreases records@.len() - k,
        {
            let rec = records[k];
            let cols = self.header.num_cols as u64;
            assert(rec == records@[k as int]);
            proof {
                let rows = self.header.num_rows as int;
                if cols == 0 {
                    assert(rows * 0 == 0) by (nonlinear_arith);
                }
                assert(rec.position < (cols as int) * rows) by (nonlinear_arith)
                    requires
                        rec.position < rows * (cols as int),
                ;
                lemma_multiply_divide_lt(rec.position as int, cols as int, rows);
            }
            let entry = self.palette.entry(rec.palette_index);
            let tile = Tile {
                row: (rec.position / cols) as u32,
                col: (rec.position % cols) as u32,
                layer: entry.layer,
                shape: entry.shape,
                color: entry.color,
            };
            let ghost before = out@;
            out.push(tile);
            assert(out@ =~= records@.take(k + 1).map_values(f)) by {
                assert(records@.take(k + 1) =~= records@.take(k as int).push(rec));
            }
            k = k + 1;
        }
        assert(records@.take(k as int) =~= records@);
        Ok(out)
    }
}

} // verus!
