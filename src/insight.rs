//! The viewer's session: the current turn, autoplay and its speed, the
//! layer switches and the viewport, driven by keys, window events and time.
use vstd::prelude::*;

use crate::game_data::{GameData, turn_tiles};
use crate::graphics::{Graphics, TileVertex, toggled, visible_vertices};
use crate::palette::MAX_LAYERS;
use crate::projection::{Projection, projection_spec};

verus! {

/// The slowest autoplay speed, in steps of 0.2: 0.2. At speed 1.0 a turn
/// lasts half a second.
pub const MIN_SPEED: u32 = 1;

/// The fastest autoplay speed, in steps of 0.2: 50.0.
pub const MAX_SPEED: u32 = 250;

/// The speed at the start, in steps of 0.2: 1.0.
pub const START_SPEED: u32 = 5;

/// At speed `s` (in steps of 0.2) a turn lasts `1 / (2 * 0.2 * s)` seconds,
/// that is this many nanoseconds divided by `s`.
pub const TURN_NANOS_AT_STEP: u128 = 2500000000;

/// A key that the viewer reacts to.
#[derive(Clone, Copy, Debug, PartialEq, Eq, Structural)]
pub enum Key {
    Q,
    Right,
    Left,
    Up,
    Down,
    Space,
    /// A digit key, `0` to `9`.
    Digit(u8),
    Other,
}

/// The layer that a digit key switches: `1` to `9` the layers 0 to 8, `0`
/// layer 9.
pub open spec fn digit_layer(d: u8) -> u32 {
    if d == 0 {
        9
    } else {
        (d - 1) as u32
    }
}

pub open spec fn clamp(v: int, lo: int, hi: int) -> int {
    if v < lo {
        lo
    } else if v > hi {
        hi
    } else {
        v
    }
}

/// The session as a whole, at one moment.
pub struct SessionState {
    pub turn: int,
    pub num_turns: int,
    pub playing: bool,
    pub speed: int,
    pub need_redraw: bool,
    pub closing: bool,
    pub layers: Seq<bool>,
    pub view_port: (u32, u32),
}

/// A loaded replay being watched.
pub struct Insight {
    game_data: GameData,
    graphics: Graphics,
    turn: usize,
    closing: bool,
    need_redraw: bool,
    playing: bool,
    play_speed: u32,
}

impl View for Insight {
    type V = SessionState;

    closed spec fn view(&self) -> SessionState {
        SessionState {
            turn: self.turn as int,
            num_turns: self.game_data@.turns.len() as int,
            playing: self.playing,
            speed: self.play_speed as int,
            need_redraw: self.need_redraw,
            closing: self.closing,
            layers: self.graphics.layers(),
            view_port: self.graphics.view_port(),
        }
    }
}

impl Insight {
    /// The turn is one of the replay's, the speed within its bounds, and the
    /// graphics are those of the replay's board.
    pub closed spec fn wf(&self) -> bool {
        &&& self.game_data.wf()
        &&& self.turn < self.game_data@.turns.len()
        &&& MIN_SPEED <= self.play_speed <= MAX_SPEED
        &&& self.graphics.num_rows() == self.game_data@.header.num_rows
        &&& self.graphics.num_cols() == self.game_data@.header.num_cols
        &&& self.graphics.layers().len() == MAX_LAYERS
        &&& self.graphics.wf()
    }

    /// In every state the current turn is one of the replay's and the speed
    /// lies between 0.2 and 50.0.
    pub proof fn lemma_session_bounds(&self)
        requires
            self.wf(),
        ensures
            0 <= self@.turn < self@.num_turns,
            MIN_SPEED <= self@.speed <= MAX_SPEED,
            self@.layers.len() == MAX_LAYERS,
    {
    }

    /// The replay being watched.
    pub closed spec fn game(&self) -> GameData {
        self.game_data
    }

    /// Starts watching a replay: at its first turn, playing, at speed 1.0,
    /// every layer shown, a redraw due.
    pub fn new(game_data: GameData) -> (r: Insight)
        requires
            game_data.wf(),
        ensures
            r.wf(),
            r.game() == game_data,
            r@.turn == 0,
            r@.num_turns == game_data@.turns.len(),
            r@.playing,
            r@.speed == START_SPEED,
            r@.need_redraw,
            !r@.closing,
            r@.layers == Seq::new(MAX_LAYERS as nat, |l: int| true),
            r@.view_port == (0u32, 0u32),
    {
        proof {
            game_data.lemma_has_turns();
        }
        let graphics = Graphics::new(game_data.num_rows(), game_data.num_cols());
        Insight {
            game_data,
            graphics,
            turn: 0,
            closing: false,
            need_redraw: true,
            playing: true,
            play_speed: START_SPEED,
        }
    }

    pub fn turn(&self) -> (r: usize)
        ensures
            r == self@.turn,
    {
        self.turn
    }

    pub fn is_closing(&self) -> (r: bool)
        ensures
            r == self@.closing,
    {
        self.closing
    }

    pub fn is_playing(&self) -> (r: bool)
        ensures
            r == self@.playing,
    {
        self.playing
    }

    /// The autoplay speed, in steps of 0.2.
    pub fn play_speed(&self) -> (r: u32)
        ensures
            r == self@.speed,
    {
        self.play_speed
    }

    pub fn game_data(&self) -> (r: &GameData)
        ensures
            *r == self.game(),
    {
        &self.game_data
    }

    /// Shows the next turn, if there is one, and stops autoplay.
    pub fn step_forward(&mut self)
        requires
            old(self).wf(),
        ensures
            final(self).wf(),
            final(self).game() == old(self).game(),
            final(self)@ == (SessionState {
                turn: if old(self)@.turn + 1 < old(self)@.num_turns {
                    old(self)@.turn + 1
                } else {
                    old(self)@.turn
                },
                playing: false,
                need_redraw: old(self)@.need_redraw || old(self)@.turn + 1 < old(self)@.num_turns,
                ..old(self)@
            }),
    {
        self.playing = false;
        if self.turn < self.game_data.num_turns() - 1 {
            self.turn = self.turn + 1;
            self.need_redraw = true;
        }
    }

    /// Shows the previous turn, if there is one, and stops autoplay.
    pub fn step_back(&mut self)
        requires
            old(self).wf(),
        ensures
            final(self).wf(),
            final(self).game() == old(self).game(),
            final(self)@ == (SessionState {
                turn: if old(self)@.turn > 0 {
                    old(self)@.turn - 1
                } else {
                    old(self)@.turn
                },
                playing: false,
                need_redraw: old(self)@.need_redraw || old(self)@.turn > 0,
                ..old(self)@
            }),
    {
        self.playing = false;
        if self.turn > 0 {
            self.turn = self.turn - 1;
            self.need_redraw = true;
        }
    }

    /// Starts or stops autoplay.
    pub fn toggle_play(&mut self)
        requires
            old(self).wf(),
        ensures
            final(self).wf(),
            final(self).game() == old(self).game(),
            final(self)@ == (SessionState { playing: !old(self)@.playing, ..old(self)@ }),
    {
        self.playing = !self.playing;
    }

    /// Changes the autoplay speed by `delta` steps of 0.2, kept between 0.2
    /// and 50.0.
    pub fn adjust_speed(&mut self, delta: i32)
        requires
            old(self).wf(),
        ensures
            final(self).wf(),
            final(self).game() == old(self).game(),
            final(self)@ == (SessionState {
                speed: clamp(old(self)@.speed + delta, MIN_SPEED as int, MAX_SPEED as int),
                ..old(self)@
            }),
    {
        let v: i64 = self.play_speed as i64 + delta as i64;
        self.play_speed = if v < MIN_SPEED as i64 {
            MIN_SPEED
        } else if v > MAX_SPEED as i64 {
            MAX_SPEED
        } else {
            v as u32
        };
    }

    /// Shows or hides a layer.
    pub fn toggle_layer(&mut self, layer: u32)
        requires
            old(self).wf(),
            layer < MAX_LAYERS,
        ensures
            final(self).wf(),
            final(self).game() == old(self).game(),
            final(self)@ == (SessionState {
                layers: toggled(old(self)@.layers, layer as int),
                need_redraw: true,
                ..old(self)@
            }),
    {
        self.graphics.toggle_layer(layer);
        self.need_redraw = true;
    }

    /// The viewport now has this size.
    pub fn resize(&mut self, width: u32, height: u32)
        requires
            old(self).wf(),
        ensures
            final(self).wf(),
            final(self).game() == old(self).game(),
            final(self)@ == (SessionState {
                view_port: (width, height),
                need_redraw: true,
                ..old(self)@
            }),
    {
        self.graphics.set_view_port(width, height);
        self.need_redraw = true;
    }

    /// The window has regained focus: draw again.
    pub fn focus(&mut self)
        requires
            old(self).wf(),
        ensures
            final(self).wf(),
            final(self).game() == old(self).game(),
            final(self)@ == (SessionState { need_redraw: true, ..old(self)@ }),
    {
        self.need_redraw = true;
    }

    /// The window is to close.
    pub fn close(&mut self)
        requires
            old(self).wf(),
        ensures
            final(self).wf(),
            final(self).game() == old(self).game(),
            final(self)@ == (SessionState { closing: true, ..old(self)@ }),
    {
        self.closing = true;
    }

    /// Reacts to a key press.
    pub fn handle_key(&mut self, key: Key)
        requires
            old(self).wf(),
        ensures
            final(self).wf(),
            final(self).game() == old(self).game(),
            match key {
                Key::Q => final(self)@ == (SessionState { closing: true, ..old(self)@ }),
                Key::Right => final(self)@ == (SessionState {
                    turn: if old(self)@.turn + 1 < old(self)@.num_turns {
                        old(self)@.turn + 1
                    } else {
                        old(self)@.turn
                    },
                    playing: false,
                    need_redraw: old(self)@.need_redraw || old(self)@.turn + 1
                        < old(self)@.num_turns,
                    ..old(self)@
                }),
                Key::Left => final(self)@ == (SessionState {
                    turn: if old(self)@.turn > 0 {
                        old(self)@.turn - 1
                    } else {
                        old(self)@.turn
                    },
                    playing: false,
                    need_redraw: old(self)@.need_redraw || old(self)@.turn > 0,
                    ..old(self)@
                }),
                Key::Up => final(self)@ == (SessionState {
                    speed: clamp(old(self)@.speed + 1, MIN_SPEED as int, MAX_SPEED as int),
                    ..old(self)@
                }),
                Key::Down => final(self)@ == (SessionState {
                    speed: clamp(old(self)@.speed - 1, MIN_SPEED as int, MAX_SPEED as int),
                    ..old(self)@
                }),
                Key::Space => final(self)@ == (SessionState {
                    playing: !old(self)@.playing,
                    ..old(self)@
                }),
                Key::Digit(d) => if d <= 9 {
                    final(self)@ == (SessionState {
                        layers: toggled(old(self)@.layers, digit_layer(d) as int),
                        need_redraw: true,
                        ..old(self)@
                    })
                } else {
                    final(self)@ == old(self)@
                },
                Key::Other => final(self)@ == old(self)@,
            },
    {
        match key {
            Key::Q => self.close(),
            Key::Right => self.step_forward(),
            Key::Left => self.step_back(),
            Key::Up => self.adjust_speed(1),
            Key::Down => self.adjust_speed(-1),
            Key::Space => self.toggle_play(),
            Key::Digit(d) => {
                if d <= 9 {
                    let layer: u32 = if d == 0 {
                        9
                    } else {
                        (d - 1) as u32
                    };
                    self.toggle_layer(layer);
                }
            },
            Key::Other => {},
        }
    }

    /// Autoplay: after `elapsed_nanos` since the last advance, moves to the
    /// next turn when playing, when a turn's time at the current speed has
    /// passed and when there is a next turn. Returns whether it moved, in
    /// which case the time is counted again from now.
    pub fn advance(&mut self, elapsed_nanos: u64) -> (moved: bool)
        requires
            old(self).wf(),
        ensures
            final(self).wf(),
            final(self).game() == old(self).game(),
            moved == (old(self)@.playing && elapsed_nanos * old(self)@.speed
                >= TURN_NANOS_AT_STEP && old(self)@.turn + 1 < old(self)@.num_turns),
            moved ==> final(self)@ == (SessionState {
                turn: old(self)@.turn + 1,
                need_redraw: true,
                ..old(self)@
            }),
            !moved ==> final(self)@ == old(self)@,
    {
        proof {
            assert(elapsed_nanos * self.play_speed <= u64::MAX as int * MAX_SPEED as int)
                by (nonlinear_arith)
                requires
                    self.play_speed <= MAX_SPEED,
                    elapsed_nanos <= u64::MAX,
            ;
        }
        let due = elapsed_nanos as u128 * self.play_speed as u128 >= TURN_NANOS_AT_STEP;
        if self.playing && due && self.turn < self.game_data.num_turns() - 1 {
            self.turn = self.turn + 1;
            self.need_redraw = true;
            true
        } else {
            false
        }
    }

    /// Whether a redraw is due; the flag is cleared.
    pub fn take_redraw(&mut self) -> (r: bool)
        requires
            old(self).wf(),
        ensures
            final(self).wf(),
            final(self).game() == old(self).game(),
            r == old(self)@.need_redraw,
            final(self)@ == (SessionState { need_redraw: false, ..old(self)@ }),
    {
        let r = self.need_redraw;
        self.need_redraw = false;
        r
    }

    /// The projection of the board into the current viewport.
    pub fn projection(&self) -> (r: Option<Projection>)
        requires
            self.wf(),
        ensures
            r == projection_spec(
                self.game()@.header.num_rows,
                self.game()@.header.num_cols,
                self@.view_port.0,
                self@.view_port.1,
            ),
    {
        self.graphics.projection()
    }

    /// The tiles of the current turn whose layer is shown, in board space.
    pub fn visible_tiles(&self) -> (r: Vec<TileVertex>)
        requires
            self.wf(),
        ensures
            r@ == visible_vertices(
                turn_tiles(self.game()@, self@.turn),
                self@.layers,
                self.game()@.header.num_rows,
            ),
    {
        match self.graphics.visible_tiles(&self.game_data, self.turn) {
            Ok(v) => v,
            Err(_) => Vec::new(),
        }
    }
}

} // verus!
