//! What the renderer is handed: which layers are shown, the viewport, the
//! projection, and the tiles of a turn placed in board space.
use vstd::prelude::*;

use crate::error::ReplayError;
use crate::game_data::{GameData, Tile, turn_tiles};
use crate::palette::{Color, MAX_LAYERS, Shape};
use crate::projection::{Projection, compute_projection, projection_spec};

verus! {

/// All ten layer bits set.
pub const ALL_LAYERS: u16 = 1023;

/// `v` with the switch of `layer` flipped.
pub open spec fn toggled(v: Seq<bool>, layer: int) -> Seq<bool> {
    v.update(layer, !v[layer])
}

/// One visibility switch per layer, held as the low ten bits of a word.
#[derive(Clone, Copy, Debug, PartialEq, Eq, Structural)]
pub struct LayerSwitches {
    bits: u16,
}

pub open spec fn bit_of(bits: u16, layer: u16) -> bool {
    (bits >> layer) & 1u16 == 1u16
}

impl View for LayerSwitches {
    type V = Seq<bool>;

    closed spec fn view(&self) -> Seq<bool> {
        Seq::new(MAX_LAYERS as nat, |l: int| bit_of(self.bits, l as u16))
    }
}

impl LayerSwitches {
    /// Every layer shown.
    pub fn new() -> (r: LayerSwitches)
        ensures
            r@ == Seq::new(MAX_LAYERS as nat, |l: int| true),
    {
        let r = LayerSwitches { bits: ALL_LAYERS };
        assert forall|l: u16| l < 10 implies bit_of(ALL_LAYERS, l) by {
            assert((1023u16 >> l) & 1u16 == 1u16) by (bit_vector)
                requires
                    l < 10,
            ;
        }
        assert(r@ =~= Seq::new(MAX_LAYERS as nat, |l: int| true)) by {
            assert forall|l: int| 0 <= l < MAX_LAYERS implies r@[l] by {
                assert(bit_of(ALL_LAYERS, l as u16));
            }
        }
        r
    }

    pub fn is_visible(&self, layer: u32) -> (r: bool)
        requires
            layer < MAX_LAYERS,
        ensures
            r == self@[layer as int],
    {
        (self.bits >> (layer as u16)) & 1 == 1
    }

    /// Flips the switch of `layer` and no other.
    pub fn toggle(&mut self, layer: u32)
        requires
            layer < MAX_LAYERS,
        ensures
            final(self)@ == toggled(old(self)@, layer as int),
    {
        let ghost before = self@;
        let b = self.bits;
        let l = layer as u16;
        self.bits = b ^ (1u16 << l);
        assert forall|k: u16| k < 10 implies bit_of(b ^ (1u16 << l), k) == (if k == l {
            !bit_of(b, k)
        } else {
            bit_of(b, k)
        }) by {
            assert((((b ^ (1u16 << l)) >> k) & 1u16 == 1u16) == (if k == l {
                !((b >> k) & 1u16 == 1u16)
            } else {
                (b >> k) & 1u16 == 1u16
            })) by (bit_vector)
                requires
                    k < 10,
                    l < 10,
            ;
        }
        assert(self@ =~= toggled(before, layer as int)) by {
            assert forall|k: int| 0 <= k < MAX_LAYERS implies self@[k] == toggled(
                before,
                layer as int,
            )[k] by {
                assert(bit_of(b ^ (1u16 << l), k as u16) == (if k as u16 == l {
                    !bit_of(b, k as u16)
                } else {
                    bit_of(b, k as u16)
                }));
            }
        }
    }
}

/// Flipping a layer's switch twice leaves every switch as it was.
pub proof fn lemma_toggle_twice(v: Seq<bool>, layer: int)
    requires
        0 <= layer < v.len(),
    ensures
        toggled(toggled(v, layer), layer) == v,
{
    assert(toggled(toggled(v, layer), layer) =~= v);
}

/// A tile placed in board space: `x`, `y` is the lower left corner of its
/// cell, with row 0 at the top of the board.
#[derive(Clone, Copy, Debug, PartialEq, Eq, Structural)]
pub struct TileVertex {
    pub x: u32,
    pub y: u32,
    pub layer: u8,
    pub shape: Shape,
    pub color: Color,
}

pub open spec fn vertex_of(t: Tile, num_rows: u32) -> TileVertex {
    TileVertex {
        x: t.col,
        y: (num_rows - t.row - 1) as u32,
        layer: t.layer,
        shape: t.shape,
        color: t.color,
    }
}

/// The tiles whose layer is shown, placed in board space, in order.
pub open spec fn visible_vertices(tiles: Seq<Tile>, visible: Seq<bool>, num_rows: u32) -> Seq<
    TileVertex,
>
    decreases tiles.len(),
{
    if tiles.len() == 0 {
        seq![]
    } else {
        let rest = visible_vertices(tiles.drop_last(), visible, num_rows);
        if visible[tiles.last().layer as int] {
            rest.push(vertex_of(tiles.last(), num_rows))
        } else {
            rest
        }
    }
}

/// The renderer's state that does not live on the GPU: the board's size,
/// the viewport's size, the projection between them, kept until one of them
/// changes, and the layer switches.
pub struct Graphics {
    num_rows: u32,
    num_cols: u32,
    width: u32,
    height: u32,
    transformation: Option<Projection>,
    layer_switches: LayerSwitches,
}

impl Graphics {
    /// A board of `num_rows x num_cols` cells, an empty viewport until it is
    /// set, every layer shown.
    pub fn new(num_rows: u32, num_cols: u32) -> (r: Graphics)
        ensures
            r.num_rows() == num_rows,
            r.num_cols() == num_cols,
            r.view_port() == (0u32, 0u32),
            r.layers() == Seq::new(MAX_LAYERS as nat, |l: int| true),
            r.wf(),
    {
        Graphics {
            num_rows,
            num_cols,
            width: 0,
            height: 0,
            transformation: compute_projection(num_rows, num_cols, 0, 0),
            layer_switches: LayerSwitches::new(),
        }
    }

    /// The kept projection is the one of the current sizes.
    pub closed spec fn wf(&self) -> bool {
        self.transformation == projection_spec(self.num_rows, self.num_cols, self.width, self.height)
    }

    pub closed spec fn num_rows(&self) -> u32 {
        self.num_rows
    }

    pub closed spec fn num_cols(&self) -> u32 {
        self.num_cols
    }

    pub closed spec fn view_port(&self) -> (u32, u32) {
        (self.width, self.height)
    }

    /// Which layers are shown, layer by layer.
    pub closed spec fn layers(&self) -> Seq<bool> {
        self.layer_switches@
    }

    pub fn toggle_layer(&mut self, layer: u32)
        requires
            layer < MAX_LAYERS,
        ensures
            old(self).wf() ==> final(self).wf(),
            final(self).layers() == toggled(old(self).layers(), layer as int),
            final(self).view_port() == old(self).view_port(),
            final(self).num_rows() == old(self).num_rows(),
            final(self).num_cols() == old(self).num_cols(),
    {
        self.layer_switches.toggle(layer);
    }

    pub fn is_layer_visible(&self, layer: u32) -> (r: bool)
        requires
            layer < MAX_LAYERS,
        ensures
            r == self.layers()[layer as int],
    {
        self.layer_switches.is_visible(layer)
    }

    /// The viewport now has this size; the projection is computed anew.
    pub fn set_view_port(&mut self, width: u32, height: u32)
        ensures
            final(self).wf(),
            final(self).view_port() == (width, height),
            final(self).layers() == old(self).layers(),
            final(self).num_rows() == old(self).num_rows(),
            final(self).num_cols() == old(self).num_cols(),
    {
        self.width = width;
        self.height = height;
        self.transformation = compute_projection(self.num_rows, self.num_cols, width, height);
    }

    /// The projection of the board into the current viewport.
    pub fn projection(&self) -> (r: Option<Projection>)
        requires
            self.wf(),
        ensures
            r == projection_spec(self.num_rows(), self.num_cols(), self.view_port().0, self.view_port().1),
    {
        self.transformation
    }

    /// The tiles of turn `turn` whose layer is shown, placed in board space,
    /// in the order of the grid.
    pub fn visible_tiles(&self, game_data: &GameData, turn: usize) -> (r: Result<
        Vec<TileVertex>,
        ReplayError,
    >)
        requires
            game_data.wf(),
        ensures
            turn >= game_data@.turns.len() ==> r == Err::<Vec<TileVertex>, ReplayError>(
                ReplayError::IndexOutOfRange,
            ),
            turn < game_data@.turns.len() ==> (r matches Ok(v) && v@ == visible_vertices(
                turn_tiles(game_data@, turn as int),
                self.layers(),
                game_data@.header.num_rows,
            )),
    {
        let tiles = match game_data.tiles(turn) {
            Ok(t) => t,
            Err(e) => {
                return Err(e);
            },
        };
        let num_rows = game_data.num_rows();
        let mut out: Vec<TileVertex> = Vec::new();
        let mut k: usize = 0;
        while k < tiles.len()
            invariant
                k <= tiles@.len(),
                num_rows == game_data@.header.num_rows,
                forall|j: int|
                    0 <= j < tiles@.len() ==> (#[trigger] tiles@[j]).row < num_rows
                        && tiles@[j].layer < MAX_LAYERS,
                out@ == visible_vertices(tiles@.take(k as int), self.layers(), num_rows),
            decreases tiles@.len() - k,
        {
            let t = tiles[k];
            assert(tiles@.take(k + 1).drop_last() =~= tiles@.take(k as int));
            if self.layer_switches.is_visible(t.layer as u32) {
                out.push(
                    TileVertex {
                        x: t.col,
                        y: num_rows - t.row - 1,
                        layer: t.layer,
                        shape: t.shape,
                        color: t.color,
                    },
                );
            }
            k = k + 1;
        }
        assert(tiles@.take(k as int) =~= tiles@);
        Ok(out)
    }
}

} // verus!
