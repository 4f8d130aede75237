//! The grid of a turn: one line per row, one cell per column, one symbol per
//! tile in a cell.
use vstd::prelude::*;

use crate::error::ReplayError;
use crate::format::Header;
use crate::palette::{Palette, PaletteEntry, symbol_index};
use crate::text::{Words, lemma_words_view};

verus! {

/// The character of a cell that stands for no tile.
pub const EMPTY_CELL: u8 = 46;

/// A tile as stored: its cell, numbered row by row, and its palette entry.
#[derive(Clone, Copy, Debug, PartialEq, Eq, Structural)]
pub struct TileRecord {
    pub position: u64,
    pub palette_index: usize,
}

/// The characters of a cell other than `.`, in order.
pub open spec fn cell_symbols(cell: Seq<u8>) -> Seq<u8>
    decreases cell.len(),
{
    if cell.len() == 0 {
        seq![]
    } else if cell.last() == EMPTY_CELL {
        cell_symbols(cell.drop_last())
    } else {
        cell_symbols(cell.drop_last()).push(cell.last())
    }
}

pub open spec fn all_known(symbols: Seq<u8>, palette: Seq<PaletteEntry>) -> bool {
    forall|k: int| 0 <= k < symbols.len() ==> (symbol_index(palette, #[trigger] symbols[k]) is Some)
}

/// The records of a cell at `position`: one per symbol, in order, or
/// `UnknownSymbol` when the palette lacks one of them.
pub open spec fn cell_records(cell: Seq<u8>, position: u64, palette: Seq<PaletteEntry>) -> Result<
    Seq<TileRecord>,
    ReplayError,
> {
    let symbols = cell_symbols(cell);
    if all_known(symbols, palette) {
        Ok(
            symbols.map_values(
                |b: u8| TileRecord { position, palette_index: symbol_index(palette, b)->0 as usize },
            ),
        )
    } else {
        Err(ReplayError::UnknownSymbol)
    }
}

/// A row line holds a word per column (more are ignored), or a single word
/// of `num_layers` characters per column.
pub open spec fn row_well_formed(ws: Seq<Seq<u8>>, h: Header) -> bool {
    ws.len() >= h.num_cols || (ws.len() == 1 && ws[0].len() == h.num_cols * h.num_layers)
}

/// The cell of column `c` in a row line.
pub open spec fn cell_of(ws: Seq<Seq<u8>>, c: int, h: Header) -> Seq<u8> {
    if ws.len() >= h.num_cols {
        ws[c]
    } else {
        ws[0].subrange(c * h.num_layers, c * h.num_layers + h.num_layers)
    }
}

/// The cell number of row `r`, column `c`.
pub open spec fn position_of(r: int, c: int, h: Header) -> int {
    r * h.num_cols + c
}

/// `acc` followed by the records of row `r`, from column `c` on.
pub open spec fn row_from(
    ws: Seq<Seq<u8>>,
    r: int,
    c: int,
    h: Header,
    palette: Seq<PaletteEntry>,
    acc: Seq<TileRecord>,
) -> Result<Seq<TileRecord>, ReplayError>
    decreases h.num_cols - c,
{
    if c >= h.num_cols {
        Ok(acc)
    } else {
        match cell_records(cell_of(ws, c, h), position_of(r, c, h) as u64, palette) {
            Err(e) => Err(e),
            Ok(rs) => row_from(ws, r, c + 1, h, palette, acc + rs),
        }
    }
}

/// `acc` followed by the records of the grid whose row 0 is line `start`,
/// from row `r` on.
pub open spec fn grid_from(
    ls: Seq<Seq<Seq<u8>>>,
    start: int,
    r: int,
    h: Header,
    palette: Seq<PaletteEntry>,
    acc: Seq<TileRecord>,
) -> Result<Seq<TileRecord>, ReplayError>
    decreases h.num_rows - r,
{
    if r >= h.num_rows {
        Ok(acc)
    } else if start + r >= ls.len() || !row_well_formed(ls[start + r], h) {
        Err(ReplayError::MalformedGrid)
    } else {
        match row_from(ls[start + r], r, 0, h, palette, acc) {
            Err(e) => Err(e),
            Ok(next) => grid_from(ls, start, r + 1, h, palette, next),
        }
    }
}

/// The records of the grid whose row 0 is line `start`.
pub open spec fn grid_records(
    ls: Seq<Seq<Seq<u8>>>,
    start: int,
    h: Header,
    palette: Seq<PaletteEntry>,
) -> Result<Seq<TileRecord>, ReplayError> {
    grid_from(ls, start, 0, h, palette, seq![])
}

/// Every record names a cell of the board and an entry of the palette.
pub open spec fn records_in_bounds(rs: Seq<TileRecord>, cells: int, entries: int) -> bool {
    forall|k: int|
        0 <= k < rs.len() ==> (#[trigger] rs[k]).position < cells && rs[k].palette_index < entries
}

pub proof fn lemma_symbol_index_bounds(palette: Seq<PaletteEntry>, b: u8)
    ensures
        symbol_index(palette, b) matches Some(i) ==> 0 <= i < palette.len() && palette[i].symbol
            == b,
    decreases palette.len(),
{
    if palette.len() > 0 {
        lemma_symbol_index_bounds(palette.drop_last(), b);
    }
}

proof fn lemma_cell_symbols_prefix(cell: Seq<u8>, k: int)
    requires
        0 <= k <= cell.len(),
    ensures
        cell_symbols(cell.take(k)).len() <= cell_symbols(cell).len(),
        cell_symbols(cell).take(cell_symbols(cell.take(k)).len() as int) == cell_symbols(
            cell.take(k),
        ),
    decreases cell.len() - k,
{
    if k == cell.len() {
        assert(cell.take(k) =~= cell);
        assert(cell_symbols(cell).take(cell_symbols(cell).len() as int) =~= cell_symbols(cell));
    } else {
        lemma_cell_symbols_prefix(cell, k + 1);
        assert(cell.take(k + 1).drop_last() =~= cell.take(k));
        let small = cell_symbols(cell.take(k));
        let big = cell_symbols(cell.take(k + 1));
        let full = cell_symbols(cell);
        assert(full.take(small.len() as int) =~= small) by {
            assert forall|j: int| 0 <= j < small.len() implies full.take(small.len() as int)[j]
                == small[j] by {
                assert(full.take(big.len() as int)[j] == big[j]);
                assert(big[j] == small[j]);
            }
        }
    }
}

/// How many characters other than `.` the cells of a row line hold, from
/// column `c` on.
pub open spec fn row_symbol_count(ws: Seq<Seq<u8>>, c: int, h: Header) -> nat
    decreases h.num_cols - c,
{
    if c >= h.num_cols {
        0
    } else {
        cell_symbols(cell_of(ws, c, h)).len() + row_symbol_count(ws, c + 1, h)
    }
}

/// How many characters other than `.` the grid whose row 0 is line `start`
/// holds, from row `r` on.
pub open spec fn grid_symbol_count(ls: Seq<Seq<Seq<u8>>>, start: int, r: int, h: Header) -> nat
    decreases h.num_rows - r,
{
    if r >= h.num_rows {
        0
    } else {
        row_symbol_count(ls[start + r], 0, h) + grid_symbol_count(ls, start, r + 1, h)
    }
}

proof fn lemma_row_count(
    ws: Seq<Seq<u8>>,
    r: int,
    c: int,
    h: Header,
    palette: Seq<PaletteEntry>,
    acc: Seq<TileRecord>,
)
    ensures
        row_from(ws, r, c, h, palette, acc) matches Ok(res) ==> res.len() == acc.len()
            + row_symbol_count(ws, c, h),
    decreases h.num_cols - c,
{
    if c < h.num_cols {
        match cell_records(cell_of(ws, c, h), position_of(r, c, h) as u64, palette) {
            Err(e) => {},
            Ok(rs) => {
                lemma_row_count(ws, r, c + 1, h, palette, acc + rs);
            },
        }
    }
}

proof fn lemma_grid_count(
    ls: Seq<Seq<Seq<u8>>>,
    start: int,
    r: int,
    h: Header,
    palette: Seq<PaletteEntry>,
    acc: Seq<TileRecord>,
)
    ensures
        grid_from(ls, start, r, h, palette, acc) matches Ok(res) ==> res.len() == acc.len()
            + grid_symbol_count(ls, start, r, h),
    decreases h.num_rows - r,
{
    if r < h.num_rows && start + r < ls.len() && row_well_formed(ls[start + r], h) {
        lemma_row_count(ls[start + r], r, 0, h, palette, acc);
        match row_from(ls[start + r], r, 0, h, palette, acc) {
            Err(e) => {},
            Ok(next) => {
                lemma_grid_count(ls, start, r + 1, h, palette, next);
            },
        }
    }
}

/// A grid yields exactly one record per character other than `.` in its
/// cells: `.` yields none.
pub proof fn lemma_tile_count(
    ls: Seq<Seq<Seq<u8>>>,
    start: int,
    h: Header,
    palette: Seq<PaletteEntry>,
)
    ensures
        grid_records(ls, start, h, palette) matches Ok(rs) ==> rs.len() == grid_symbol_count(
            ls,
            start,
            0,
            h,
        ),
{
    lemma_grid_count(ls, start, 0, h, palette, seq![]);
}

/// A character other than `.` at position `j` of a cell is one of the cell's
/// symbols.
proof fn lemma_symbol_in_cell(cell: Seq<u8>, j: int)
    requires
        0 <= j < cell.len(),
        cell[j] != EMPTY_CELL,
    ensures
        exists|k: int| 0 <= k < cell_symbols(cell).len() && cell_symbols(cell)[k] == cell[j],
{
    lemma_cell_symbols_prefix(cell, j + 1);
    assert(cell.take(j + 1).drop_last() =~= cell.take(j));
    let syms = cell_symbols(cell.take(j + 1));
    let full = cell_symbols(cell);
    assert(syms.last() == cell[j]);
    assert(full[syms.len() - 1] == full.take(syms.len() as int)[syms.len() - 1]);
}

proof fn lemma_row_errors_are_unknown(
    ws: Seq<Seq<u8>>,
    r: int,
    c: int,
    h: Header,
    palette: Seq<PaletteEntry>,
    acc: Seq<TileRecord>,
)
    ensures
        row_from(ws, r, c, h, palette, acc) matches Err(e) ==> e == ReplayError::UnknownSymbol,
    decreases h.num_cols - c,
{
    if c < h.num_cols {
        match cell_records(cell_of(ws, c, h), position_of(r, c, h) as u64, palette) {
            Err(e) => {},
            Ok(rs) => {
                lemma_row_errors_are_unknown(ws, r, c + 1, h, palette, acc + rs);
            },
        }
    }
}

proof fn lemma_row_fails_at(
    ws: Seq<Seq<u8>>,
    r: int,
    c: int,
    c0: int,
    j: int,
    h: Header,
    palette: Seq<PaletteEntry>,
    acc: Seq<TileRecord>,
)
    requires
        c <= c0 < h.num_cols,
        0 <= j < cell_of(ws, c0, h).len(),
        cell_of(ws, c0, h)[j] != EMPTY_CELL,
        symbol_index(palette, cell_of(ws, c0, h)[j]) is None,
    ensures
        row_from(ws, r, c, h, palette, acc) == Err::<Seq<TileRecord>, ReplayError>(
            ReplayError::UnknownSymbol,
        ),
    decreases h.num_cols - c,
{
    match cell_records(cell_of(ws, c, h), position_of(r, c, h) as u64, palette) {
        Err(e) => {},
        Ok(rs) => {
            if c == c0 {
                lemma_symbol_in_cell(cell_of(ws, c0, h), j);
            } else {
                lemma_row_fails_at(ws, r, c + 1, c0, j, h, palette, acc + rs);
            }
        },
    }
}

proof fn lemma_grid_fails_at(
    ls: Seq<Seq<Seq<u8>>>,
    start: int,
    r: int,
    r0: int,
    c0: int,
    j: int,
    h: Header,
    palette: Seq<PaletteEntry>,
    acc: Seq<TileRecord>,
)
    requires
        0 <= r <= r0 < h.num_rows,
        0 <= start,
        start + r0 < ls.len(),
        forall|i: int| r <= i <= r0 ==> row_well_formed(#[trigger] ls[start + i], h),
        0 <= c0 < h.num_cols,
        0 <= j < cell_of(ls[start + r0], c0, h).len(),
        cell_of(ls[start + r0], c0, h)[j] != EMPTY_CELL,
        symbol_index(palette, cell_of(ls[start + r0], c0, h)[j]) is None,
    ensures
        grid_from(ls, start, r, h, palette, acc) == Err::<Seq<TileRecord>, ReplayError>(
            ReplayError::UnknownSymbol,
        ),
    decreases h.num_rows - r,
{
    assert(row_well_formed(ls[start + r], h));
    lemma_row_errors_are_unknown(ls[start + r], r, 0, h, palette, acc);
    if r == r0 {
        lemma_row_fails_at(ls[start + r], r, 0, c0, j, h, palette, acc);
    } else {
        match row_from(ls[start + r], r, 0, h, palette, acc) {
            Err(e) => {},
            Ok(next) => {
                lemma_grid_fails_at(ls, start, r + 1, r0, c0, j, h, palette, next);
            },
        }
    }
}

/// A grid whose cells name a symbol that the palette lacks fails with
/// `UnknownSymbol`, provided its rows up to that cell's are there and well
/// formed (else it fails as a malformed grid first).
pub proof fn lemma_unknown_symbol_fails(
    ls: Seq<Seq<Seq<u8>>>,
    start: int,
    h: Header,
    palette: Seq<PaletteEntry>,
    r0: int,
    c0: int,
    j: int,
)
    requires
        0 <= start,
        0 <= r0 < h.num_rows,
        start + r0 < ls.len(),
        forall|i: int| 0 <= i <= r0 ==> row_well_formed(#[trigger] ls[start + i], h),
        0 <= c0 < h.num_cols,
        0 <= j < cell_of(ls[start + r0], c0, h).len(),
        cell_of(ls[start + r0], c0, h)[j] != EMPTY_CELL,
        symbol_index(palette, cell_of(ls[start + r0], c0, h)[j]) is None,
    ensures
        grid_records(ls, start, h, palette) == Err::<Seq<TileRecord>, ReplayError>(
            ReplayError::UnknownSymbol,
        ),
{
    lemma_grid_fails_at(ls, start, 0, r0, c0, j, h, palette, seq![]);
}

/// Appends the records of the cell `word[from..to]` at `position`.
fn push_cell(
    word: &Vec<u8>,
    from: usize,
    to: usize,
    position: u64,
    palette: &Palette,
    out: &mut Vec<TileRecord>,
) -> (r: Result<(), ReplayError>)
    requires
        palette.wf(),
        from <= to <= word@.len(),
    ensures
        match cell_records(word@.subrange(from as int, to as int), position, palette@) {
            Ok(rs) => r is Ok && final(out)@ == old(out)@ + rs,
            Err(e) => r == Err::<(), ReplayError>(e),
        },
        r is Ok ==> forall|k: int|
            old(out)@.len() <= k < final(out)@.len() ==> (#[trigger] final(out)@[k]).position
                == position && final(out)@[k].palette_index < palette@.len(),
{
    let ghost cell = word@.subrange(from as int, to as int);
    let ghost start = out@;
    let ghost f = |b: u8|
        TileRecord { position, palette_index: symbol_index(palette@, b)->0 as usize };
    let mut i: usize = from;
    while i < to
        invariant
            palette.wf(),
            from <= i <= to <= word@.len(),
            cell == word@.subrange(from as int, to as int),
            all_known(cell_symbols(cell.take(i - from)), palette@),
            out@ == start + cell_symbols(cell.take(i - from)).map_values(f),
            f == (|b: u8|
                TileRecord { position, palette_index: symbol_index(palette@, b)->0 as usize }),
            forall|k: int|
                start.len() <= k < out@.len() ==> (#[trigger] out@[k]).position == position
                    && out@[k].palette_index < palette@.len(),
        decreases to - i,
    {
        let b = word[i];
        let ghost j = i - from;
        assert(cell[j] == b);
        assert(cell.take(j + 1).drop_last() =~= cell.take(j));
        assert(cell.take(j + 1).last() == b);
        if b != EMPTY_CELL {
            match palette.lookup(b) {
                Some(pi) => {
                    proof {
                        lemma_symbol_index_bounds(palette@, b);
                    }
                    let ghost before = out@;
                    out.push(TileRecord { position, palette_index: pi });
                    proof {
                        let syms = cell_symbols(cell.take(j + 1));
                        assert(syms == cell_symbols(cell.take(j)).push(b));
                        assert(out@ =~= start + syms.map_values(f));
                        assert(all_known(syms, palette@)) by {
                            assert forall|k: int| 0 <= k < syms.len() implies (symbol_index(
                                palette@,
                                #[trigger] syms[k],
                            ) is Some) by {
                                if k < syms.len() - 1 {
                                    assert(syms[k] == cell_symbols(cell.take(j))[k]);
                                }
                            }
                        }
                    }
                },
                None => {
                    proof {
                        lemma_cell_symbols_prefix(cell, j + 1);
                        let syms = cell_symbols(cell.take(j + 1));
                        let full = cell_symbols(cell);
                        assert(syms.last() == b);
                        assert(full[syms.len() - 1] == full.take(syms.len() as int)[syms.len()
                            - 1]);
                        assert(!all_known(full, palette@));
                    }
                    return Err(ReplayError::UnknownSymbol);
                },
            }
        }
        i = i + 1;
    }
    assert(cell.take(i - from) =~= cell);
    Ok(())
}

proof fn lemma_position_bounds(r: int, c: int, rows: int, cols: int)
    requires
        0 <= r < rows,
        0 <= c < cols,
    ensures
        0 <= r * cols + c < rows * cols,
{
    assert(r * cols + c < rows * cols) by (nonlinear_arith)
        requires
            0 <= r < rows,
            0 <= c < cols,
    ;
    assert(0 <= r * cols) by (nonlinear_arith)
        requires
            0 <= r,
            0 <= c < cols,
    ;
}

proof fn lemma_u32_product(a: u32, b: u32)
    ensures
        a as int * b as int <= u32::MAX as int * u32::MAX as int,
        u32::MAX as int * u32::MAX as int <= u64::MAX,
{
    assert(a as int * b as int <= u32::MAX as int * u32::MAX as int) by (nonlinear_arith)
        requires
            a <= u32::MAX,
            b <= u32::MAX,
            0 <= a,
            0 <= b,
    ;
}

proof fn lemma_cell_span(c: int, cols: int, layers: int)
    requires
        0 <= c < cols,
        0 <= layers,
    ensures
        0 <= c * layers,
        c * layers + layers <= cols * layers,
{
    assert(0 <= c * layers) by (nonlinear_arith)
        requires
            0 <= c,
            0 <= layers,
    ;
    assert(c * layers + layers <= cols * layers) by (nonlinear_arith)
        requires
            0 <= c < cols,
            0 <= layers,
    ;
}

/// Appends the records of row `r`, read from its line `ws`.
fn push_row(ws: &Words, r: u32, h: Header, palette: &Palette, out: &mut Vec<TileRecord>) -> (res:
    Result<(), ReplayError>)
    requires
        palette.wf(),
        row_well_formed(ws.deep_view(), h),
        r < h.num_rows,
        records_in_bounds(old(out)@, h.num_rows * h.num_cols, palette@.len() as int),
    ensures
        match row_from(ws.deep_view(), r as int, 0, h, palette@, old(out)@) {
            Ok(acc) => res is Ok && final(out)@ == acc,
            Err(e) => res == Err::<(), ReplayError>(e),
        },
        res is Ok ==> records_in_bounds(
            final(out)@,
            h.num_rows * h.num_cols,
            palette@.len() as int,
        ),
{
    proof {
        lemma_words_view(*ws);
    }
    let ghost dv = ws.deep_view();
    let ghost cells = h.num_rows * h.num_cols;
    let mut c: u32 = 0;
    while c < h.num_cols
        invariant
            palette.wf(),
            dv == ws.deep_view(),
            row_well_formed(dv, h),
            r < h.num_rows,
            c <= h.num_cols,
            cells == h.num_rows * h.num_cols,
            row_from(dv, r as int, 0, h, palette@, old(out)@) == row_from(
                dv,
                r as int,
                c as int,
                h,
                palette@,
                out@,
            ),
            records_in_bounds(out@, cells, palette@.len() as int),
        decreases h.num_cols - c,
    {
        proof {
            lemma_position_bounds(r as int, c as int, h.num_rows as int, h.num_cols as int);
            lemma_u32_product(h.num_rows, h.num_cols);
        }
        let position: u64 = r as u64 * h.num_cols as u64 + c as u64;
        let ghost before = out@;
        let pushed = if ws.len() >= h.num_cols as usize {
            let word = &ws[c as usize];
            assert(word@.subrange(0, word@.len() as int) =~= cell_of(dv, c as int, h));
            push_cell(word, 0, word.len(), position, palette, out)
        } else {
            proof {
                lemma_cell_span(c as int, h.num_cols as int, h.num_layers as int);
            }
            let word = &ws[0];
            let n = word.len();
            assert(n == h.num_cols * h.num_layers);
            assert(c * h.num_layers + h.num_layers <= n);
            let from = c as usize * h.num_layers as usize;
            let to = from + h.num_layers as usize;
            assert(word@.subrange(from as int, to as int) == cell_of(dv, c as int, h));
            push_cell(word, from, to, position, palette, out)
        };
        match pushed {
            Ok(()) => {},
            Err(e) => {
                return Err(e);
            },
        }
        assert(records_in_bounds(out@, cells, palette@.len() as int)) by {
            assert forall|k: int| 0 <= k < out@.len() implies (#[trigger] out@[k]).position < cells
                && out@[k].palette_index < palette@.len() by {
                if k < before.len() {
                    assert(out@[k] == before[k]);
                }
            }
        }
        c = c + 1;
    }
    Ok(())
}

/// The records of the grid whose row 0 is line `start`.
pub fn parse_grid(ls: &Vec<Words>, start: usize, h: Header, palette: &Palette) -> (res: Result<
    Vec<TileRecord>,
    ReplayError,
>)
    requires
        palette.wf(),
    ensures
        match grid_records(ls.deep_view(), start as int, h, palette@) {
            Ok(rs) => res matches Ok(v) && v@ == rs && records_in_bounds(
                rs,
                h.num_rows * h.num_cols,
                palette@.len() as int,
            ),
            Err(e) => res == Err::<Vec<TileRecord>, ReplayError>(e),
        },
        res is Ok ==> h.num_rows == 0 || start + h.num_rows <= ls@.len(),
{
    let ghost dv = ls.deep_view();
    let mut out: Vec<TileRecord> = Vec::new();
    let mut r: u32 = 0;
    assert(out@ =~= Seq::<TileRecord>::empty());
    while r < h.num_rows
        invariant
            palette.wf(),
            dv == ls.deep_view(),
            r <= h.num_rows,
            grid_records(dv, start as int, h, palette@) == grid_from(
                dv,
                start as int,
                r as int,
                h,
                palette@,
                out@,
            ),
            records_in_bounds(out@, h.num_rows * h.num_cols, palette@.len() as int),
            r > 0 ==> start + r <= ls@.len(),
        decreases h.num_rows - r,
    {
        if start >= ls.len() || ls.len() - start <= r as usize {
            return Err(ReplayError::MalformedGrid);
        }
        let line = &ls[start + r as usize];
        assert(dv[start + r] == line.deep_view());
        if !row_fits(line, h) {
            return Err(ReplayError::MalformedGrid);
        }
        match push_row(line, r, h, palette, &mut out) {
            Ok(()) => {},
            Err(e) => {
                return Err(e);
            },
        }
        r = r + 1;
    }
    Ok(out)
}

fn row_fits(ws: &Words, h: Header) -> (r: bool)
    ensures
        r == row_well_formed(ws.deep_view(), h),
{
    proof {
        lemma_words_view(*ws);
        lemma_u32_product(h.num_cols, h.num_layers);
    }
    ws.len() >= h.num_cols as usize || (ws.len() == 1 && ws[0].len() as u64 == h.num_cols as u64
        * h.num_layers as u64)
}

} // verus!
