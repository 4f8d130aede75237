//! The palette: what each symbol of the grid stands for.
use vstd::prelude::*;

use crate::error::ReplayError;
use crate::text::Decimal;

verus! {

/// The most layers a board can have; a layer is below this number.
pub const MAX_LAYERS: u32 = 10;

/// The number of distinct symbols: one per byte value.
pub const SYMBOL_SLOTS: usize = 256;

#[derive(Clone, Copy, Debug, PartialEq, Eq, Structural)]
pub enum Shape {
    Square,
    Circle,
}

/// A colour with opacity, each component as the decimal number written in
/// the replay.
#[derive(Clone, Copy, Debug, PartialEq, Eq, Structural)]
pub struct Color {
    pub red: Decimal,
    pub green: Decimal,
    pub blue: Decimal,
    pub alpha: Decimal,
}

/// An opaque colour, as the background's.
#[derive(Clone, Copy, Debug, PartialEq, Eq, Structural)]
pub struct Rgb {
    pub red: Decimal,
    pub green: Decimal,
    pub blue: Decimal,
}

pub open spec fn zero() -> Decimal {
    Decimal { digits: 0, places: 0 }
}

/// Opaque black, the background when the replay gives none.
pub open spec fn black() -> Rgb {
    Rgb { red: zero(), green: zero(), blue: zero() }
}

pub fn black_rgb() -> (r: Rgb)
    ensures
        r == black(),
{
    let z = Decimal { digits: 0, places: 0 };
    Rgb { red: z, green: z, blue: z }
}

#[derive(Clone, Copy, Debug, PartialEq, Eq, Structural)]
pub struct PaletteEntry {
    pub symbol: u8,
    pub shape: Shape,
    pub color: Color,
    pub layer: u8,
}

/// The position of the entry for `symbol` in `entries`, if there is one.
/// Entries are added at the end, and a symbol's first entry is the one found.
pub open spec fn symbol_index(entries: Seq<PaletteEntry>, symbol: u8) -> Option<int>
    decreases entries.len(),
{
    if entries.len() == 0 {
        None
    } else {
        match symbol_index(entries.drop_last(), symbol) {
            Some(i) => Some(i),
            None => if entries.last().symbol == symbol {
                Some(entries.len() - 1)
            } else {
                None
            },
        }
    }
}

pub open spec fn opt_int(o: Option<usize>) -> Option<int> {
    match o {
        Some(i) => Some(i as int),
        None => None,
    }
}

/// Maps each symbol to (shape, colour, layer); a symbol is looked up in
/// constant time through a table with a slot per byte value.
pub struct Palette {
    entries: Vec<PaletteEntry>,
    slots: Vec<Option<usize>>,
}

impl View for Palette {
    type V = Seq<PaletteEntry>;

    closed spec fn view(&self) -> Seq<PaletteEntry> {
        self.entries@
    }
}

impl Palette {
    /// The table holds, for each byte, where that symbol's entry is; every
    /// layer is below `MAX_LAYERS`.
    pub closed spec fn wf(&self) -> bool {
        &&& self.slots@.len() == SYMBOL_SLOTS
        &&& forall|k: int|
            0 <= k < SYMBOL_SLOTS ==> opt_int(#[trigger] self.slots@[k]) == symbol_index(
                self.entries@,
                k as u8,
            )
        &&& forall|i: int| 0 <= i < self.entries@.len() ==> (#[trigger] self.entries@[i]).layer < MAX_LAYERS
    }

    pub fn new() -> (r: Palette)
        ensures
            r.wf(),
            r@ == Seq::<PaletteEntry>::empty(),
    {
        let mut slots: Vec<Option<usize>> = Vec::new();
        let mut k: usize = 0;
        while k < SYMBOL_SLOTS
            invariant
                k <= SYMBOL_SLOTS,
                slots@.len() == k,
                forall|j: int| 0 <= j < k ==> #[trigger] slots@[j] == None::<usize>,
            decreases SYMBOL_SLOTS - k,
        {
            slots.push(None);
            k = k + 1;
        }
        Palette { entries: Vec::new(), slots }
    }

    pub fn len(&self) -> (r: usize)
        ensures
            r == self@.len(),
    {
        self.entries.len()
    }

    /// Where the entry for `symbol` stands, if the palette has one.
    pub fn lookup(&self, symbol: u8) -> (r: Option<usize>)
        requires
            self.wf(),
        ensures
            opt_int(r) == symbol_index(self@, symbol),
    {
        let r = self.slots[symbol as usize];
        assert(symbol as int as u8 == symbol);
        r
    }

    pub fn entry(&self, i: usize) -> (r: PaletteEntry)
        requires
            i < self@.len(),
        ensures
            r == self@[i as int],
            self.wf() ==> r.layer < MAX_LAYERS,
    {
        self.entries[i]
    }

    /// Adds `entry`, unless its symbol is defined already.
    pub fn insert(&mut self, entry: PaletteEntry) -> (r: Result<(), ReplayError>)
        requires
            old(self).wf(),
            entry.layer < MAX_LAYERS,
        ensures
            final(self).wf(),
            symbol_index(old(self)@, entry.symbol).is_some() ==> r == Err::<(), ReplayError>(
                ReplayError::DuplicateSymbol,
            ) && final(self)@ == old(self)@,
            symbol_index(old(self)@, entry.symbol).is_none() ==> r is Ok && final(self)@ == old(
                self,
            )@.push(entry),
    {
        let s = entry.symbol as usize;
        if self.slots[s].is_some() {
            assert(s as int as u8 == entry.symbol);
            return Err(ReplayError::DuplicateSymbol);
        }
        assert(s as int as u8 == entry.symbol);
        let ghost before = self.entries@;
        let n = self.entries.len();
        self.entries.push(entry);
        self.slots.set(s, Some(n));
        assert(self.entries@.drop_last() =~= before);
        assert forall|k: int| 0 <= k < SYMBOL_SLOTS implies opt_int(#[trigger] self.slots@[k])
            == symbol_index(self.entries@, k as u8) by {
            assert(symbol_index(self.entries@, k as u8) == match symbol_index(before, k as u8) {
                Some(i) => Some(i),
                None => if entry.symbol == k as u8 {
                    Some(before.len() as int)
                } else {
                    None
                },
            });
            if k != s as int {
                assert(k as u8 != entry.symbol);
            }
        }
        Ok(())
    }
}

} // verus!
