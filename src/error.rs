use vstd::prelude::*;

verus! {

/// Why a replay could not be loaded, or why a turn could not be read.
#[derive(Clone, Copy, Debug, PartialEq, Eq, Structural)]
pub enum ReplayError {
    /// The first line does not give the board's rows, columns and layers.
    MalformedHeader,
    /// A palette line is incomplete or holds a malformed number, or the
    /// palette is not closed by a `turn` line.
    MalformedPalette,
    /// A grid line is missing or does not hold a cell for every column.
    MalformedGrid,
    /// A grid cell names a symbol that the palette does not define.
    UnknownSymbol,
    /// A layer of 10 or more, in the header or in a palette line.
    InvalidLayer,
    /// Two palette lines define the same symbol.
    DuplicateSymbol,
    /// A turn that the replay does not have.
    IndexOutOfRange,
}

} // verus!
