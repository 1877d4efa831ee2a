//! What the keys and the mouse do.

use vstd::prelude::*;
use crate::clock::{next_seed, Clock};
#[allow(unused_imports)]
use crate::clock::following_seed;
use crate::materials::{Material, HOTBAR, MATERIAL_COUNT};
use crate::sim::{Stroke, MAX_TICKS_PER_FRAME};
use crate::single::{Point, Single};

verus! {

/// The keys that mean something, by their position on the keyboard.
#[derive(Copy, Clone, Debug, PartialEq, Eq, Structural)]
pub enum Key {
    A,
    D,
    W,
    S,
    ArrowLeft,
    ArrowRight,
    ArrowUp,
    ArrowDown,
    Space,
    Digit1,
    Digit2,
    Digit3,
    Digit4,
    Digit5,
    Digit6,
    Digit7,
    Digit8,
    Digit9,
    Digit0,
    E,
    Q,
    BracketLeft,
    BracketRight,
    P,
    N,
    R,
    Escape,
    Other,
}

#[derive(Copy, Clone, Debug, PartialEq, Eq, Structural)]
pub enum Button {
    Left,
    Right,
    Middle,
    Other,
}

/// What happens to the window, as far as it concerns the state.
#[derive(Copy, Clone, Debug, PartialEq, Eq, Structural)]
pub enum Event {
    CursorMoved,
    CursorLeft,
    /// A mouse button went down (`true`) or up.
    MouseInput(Button, bool),
    /// A key went down (`true`) or up.
    KeyboardInput(Key, bool),
}

/// What an event asks of the caller.
#[derive(Copy, Clone, Debug, PartialEq, Eq, Structural)]
pub enum Action {
    Nothing,
    /// Move the camera along with the cursor.
    PanCamera,
    /// Make the brush smaller, see [`State::shrink_brush`].
    ShrinkBrush,
    /// Make the brush larger, see [`State::grow_brush`].
    GrowBrush,
    /// Build a new world from the state's seed.
    Regenerate,
    Exit,
}

/// The bits of 1.0 and 400.0, the limits of the brush radius, and of 12.0, its
/// start.
pub const MIN_BRUSH: u32 = 0x3f80_0000;

pub const MAX_BRUSH: u32 = 0x43c8_0000;

pub const START_BRUSH: u32 = 0x4140_0000;

#[derive(Copy, Clone, Debug, PartialEq, Eq, Structural)]
pub struct State {
    pub clock: Clock,
    pub cursor_in_window: bool,
    /// Where the brush was on the last frame of the stroke.
    pub stroke_from: Option<Point>,
    /// The material being painted while a button is held.
    pub painting: Option<u8>,
    pub space_pan: bool,
    pub middle_pan: bool,
    pub pan_left: bool,
    pub pan_right: bool,
    pub pan_up: bool,
    pub pan_down: bool,
    pub material: u8,
    pub brush: Single,
    pub seed: u32,
}

/// The hotbar slot of a digit key: 1-9 then 0.
pub open spec fn hotbar_slot(key: Key) -> Option<int> {
    match key {
        Key::Digit1 => Some(0),
        Key::Digit2 => Some(1),
        Key::Digit3 => Some(2),
        Key::Digit4 => Some(3),
        Key::Digit5 => Some(4),
        Key::Digit6 => Some(5),
        Key::Digit7 => Some(6),
        Key::Digit8 => Some(7),
        Key::Digit9 => Some(8),
        Key::Digit0 => Some(9),
        _ => None,
    }
}

fn slot_of(key: Key) -> (r: Option<usize>)
    ensures
        match hotbar_slot(key) {
            Some(slot) => r is Some && r->0 == slot,
            None => r is None,
        },
        r matches Some(slot) ==> slot < 10,
{
    match key {
        Key::Digit1 => Some(0),
        Key::Digit2 => Some(1),
        Key::Digit3 => Some(2),
        Key::Digit4 => Some(3),
        Key::Digit5 => Some(4),
        Key::Digit6 => Some(5),
        Key::Digit7 => Some(6),
        Key::Digit8 => Some(7),
        Key::Digit9 => Some(8),
        Key::Digit0 => Some(9),
        _ => None,
    }
}

/// What a key asks of the caller. Escape counts both ways.
pub open spec fn asked_by(key: Key, pressed: bool) -> Action {
    match key {
        Key::Escape => Action::Exit,
        Key::BracketLeft => if pressed {
            Action::ShrinkBrush
        } else {
            Action::Nothing
        },
        Key::BracketRight => if pressed {
            Action::GrowBrush
        } else {
            Action::Nothing
        },
        Key::R => if pressed {
            Action::Regenerate
        } else {
            Action::Nothing
        },
        _ => Action::Nothing,
    }
}

impl State {
    /// The clock is in order and the chosen material is one of the table.
    pub open spec fn wf(self) -> bool {
        self.clock.wf() && self.material < MATERIAL_COUNT
    }

    /// The keys that act for as long as they are held.
    pub open spec fn holding(self, key: Key, pressed: bool) -> State {
        match key {
            Key::A | Key::ArrowLeft => State { pan_left: pressed, ..self },
            Key::D | Key::ArrowRight => State { pan_right: pressed, ..self },
            Key::W | Key::ArrowUp => State { pan_up: pressed, ..self },
            Key::S | Key::ArrowDown => State { pan_down: pressed, ..self },
            Key::Space => State { space_pan: pressed, ..self },
            _ => self,
        }
    }

    /// What pressing a key changes, apart from keys that act while held.
    pub open spec fn pressing(self, key: Key) -> State {
        match hotbar_slot(key) {
            Some(slot) => State { material: HOTBAR[slot], ..self },
            None => match key {
                Key::E => State {
                    material: ((self.material + 1) % (MATERIAL_COUNT as int)) as u8,
                    ..self
                },
                Key::Q => State {
                    material: ((self.material + MATERIAL_COUNT - 1) % (MATERIAL_COUNT as int)) as u8,
                    ..self
                },
                Key::P => State {
                    clock: Clock { paused: !self.clock.paused, ..self.clock },
                    ..self
                },
                Key::N => State { clock: Clock { step_once: true, ..self.clock }, ..self },
                Key::R => State { seed: following_seed(self.seed), ..self },
                _ => self,
            },
        }
    }

    /// The state after a key went down or up.
    pub open spec fn after_key(self, key: Key, pressed: bool) -> State {
        if pressed {
            self.holding(key, true).pressing(key)
        } else {
            self.holding(key, false)
        }
    }

    /// The state after a mouse button went down or up. Left paints, right
    /// erases, middle pans.
    pub open spec fn after_button(self, button: Button, down: bool) -> State {
        match button {
            Button::Left => State {
                painting: if down {
                    Some(self.material)
                } else {
                    None
                },
                stroke_from: None,
                ..self
            },
            Button::Right => State {
                painting: if down {
                    Some(Material::AIR)
                } else {
                    None
                },
                stroke_from: None,
                ..self
            },
            Button::Middle => State { middle_pan: down, ..self },
            Button::Other => self,
        }
    }

    /// The stroke to stamp on a frame with the cursor at `cursor`: from where
    /// the last frame left off to the cursor.
    pub open spec fn stroke_at(self, cursor: Point) -> Option<Stroke> {
        match self.painting {
            Some(material) => Some(
                Stroke {
                    from: match self.stroke_from {
                        Some(from) => from,
                        None => cursor,
                    },
                    to: cursor,
                    radius: self.brush,
                    material,
                },
            ),
            None => None,
        }
    }

    /// The state after a frame with the cursor at `cursor`.
    pub open spec fn after_stroke(self, cursor: Point) -> State {
        if self.painting is Some {
            State { stroke_from: Some(cursor), ..self }
        } else {
            self
        }
    }

    pub fn new(seed: u32) -> (s: State)
        ensures
            s.wf(),
            s == (State {
                clock: Clock { accumulator: 0, paused: false, step_once: false },
                cursor_in_window: false,
                stroke_from: None,
                painting: None,
                space_pan: false,
                middle_pan: false,
                pan_left: false,
                pan_right: false,
                pan_up: false,
                pan_down: false,
                material: HOTBAR[0],
                brush: Single { bits: START_BRUSH },
                seed,
            }),
    {
        State {
            clock: Clock::new(),
            cursor_in_window: false,
            stroke_from: None,
            painting: None,
            space_pan: false,
            middle_pan: false,
            pan_left: false,
            pan_right: false,
            pan_up: false,
            pan_down: false,
            material: HOTBAR[0],
            brush: Single { bits: START_BRUSH },
            seed,
        }
    }

    fn hold(&mut self, key: Key, pressed: bool)
        ensures
            *final(self) == old(self).holding(key, pressed),
    {
        match key {
            Key::A | Key::ArrowLeft => {
                self.pan_left = pressed;
            },
            Key::D | Key::ArrowRight => {
                self.pan_right = pressed;
            },
            Key::W | Key::ArrowUp => {
                self.pan_up = pressed;
            },
            Key::S | Key::ArrowDown => {
                self.pan_down = pressed;
            },
            Key::Space => {
                self.space_pan = pressed;
            },
            _ => {},
        }
    }

    fn press(&mut self, key: Key) -> (r: Action)
        requires
            old(self).wf(),
        ensures
            final(self).wf(),
            *final(self) == old(self).pressing(key),
            r == asked_by(key, true),
    {
        match slot_of(key) {
            Some(slot) => {
                self.material = HOTBAR[slot];
                return Action::Nothing;
            },
            None => {},
        }
        let count: u8 = MATERIAL_COUNT as u8;
        match key {
            Key::E => {
                self.material = (self.material + 1) % count;
                Action::Nothing
            },
            Key::Q => {
                self.material = (self.material + count - 1) % count;
                Action::Nothing
            },
            Key::P => {
                self.clock.paused = !self.clock.paused;
                Action::Nothing
            },
            Key::N => {
                self.clock.step_once = true;
                Action::Nothing
            },
            Key::R => {
                self.seed = next_seed(self.seed);
                Action::Regenerate
            },
            Key::BracketLeft => Action::ShrinkBrush,
            Key::BracketRight => Action::GrowBrush,
            Key::Escape => Action::Exit,
            _ => Action::Nothing,
        }
    }

    /// A key went down or up.
    pub fn key(&mut self, key: Key, pressed: bool) -> (r: Action)
        requires
            old(self).wf(),
        ensures
            final(self).wf(),
            *final(self) == old(self).after_key(key, pressed),
            r == asked_by(key, pressed),
    {
        self.hold(key, pressed);
        if pressed {
            self.press(key)
        } else if key == Key::Escape {
            Action::Exit
        } else {
            Action::Nothing
        }
    }

    /// A mouse button went down or up.
    fn button(&mut self, button: Button, down: bool)
        ensures
            *final(self) == old(self).after_button(button, down),
    {
        match button {
            Button::Left => {
                self.painting = if down {
                    Some(self.material)
                } else {
                    None
                };
                self.stroke_from = None;
            },
            Button::Right => {
                self.painting = if down {
                    Some(Material::AIR)
                } else {
                    None
                };
                self.stroke_from = None;
            },
            Button::Middle => {
                self.middle_pan = down;
            },
            Button::Other => {},
        }
    }

    /// The cursor moved inside the window. Returns whether the move pans the
    /// camera.
    fn cursor_moved(&mut self) -> (pans: bool)
        ensures
            pans == (old(self).space_pan || old(self).middle_pan),
            *final(self) == (State { cursor_in_window: true, ..*old(self) }),
    {
        self.cursor_in_window = true;
        self.space_pan || self.middle_pan
    }

    fn cursor_left(&mut self)
        ensures
            *final(self) == (State { cursor_in_window: false, ..*old(self) }),
    {
        self.cursor_in_window = false;
    }

    /// Which way the held keys pan.
    pub open spec fn direction(self) -> (int, int) {
        (
            (if self.pan_right {
                1int
            } else {
                0
            }) - (if self.pan_left {
                1int
            } else {
                0
            }),
            (if self.pan_down {
                1int
            } else {
                0
            }) - (if self.pan_up {
                1int
            } else {
                0
            }),
        )
    }

    /// Which way the held keys pan, per axis. Opposite keys cancel out.
    pub fn pan_direction(&self) -> (r: (i32, i32))
        ensures
            r.0 == (if self.pan_right {
                1int
            } else {
                0
            }) - (if self.pan_left {
                1int
            } else {
                0
            }),
            r.1 == (if self.pan_down {
                1int
            } else {
                0
            }) - (if self.pan_up {
                1int
            } else {
                0
            }),
            r.0 == self.direction().0 && r.1 == self.direction().1,
    {
        let right: i32 = if self.pan_right {
            1
        } else {
            0
        };
        let left: i32 = if self.pan_left {
            1
        } else {
            0
        };
        let down: i32 = if self.pan_down {
            1
        } else {
            0
        };
        let up: i32 = if self.pan_up {
            1
        } else {
            0
        };
        (right - left, down - up)
    }

    /// The stroke of this frame, if a button is painting.
    pub fn stroke(&mut self, cursor: Point) -> (r: Option<Stroke>)
        ensures
            r == old(self).stroke_at(cursor),
            *final(self) == old(self).after_stroke(cursor),
    {
        match self.painting {
            None => None,
            Some(material) => {
                let from: Point = match self.stroke_from {
                    Some(from) => from,
                    None => cursor,
                };
                self.stroke_from = Some(cursor);
                Some(Stroke { from, to: cursor, radius: self.brush, material })
            },
        }
    }

    /// The state after an event.
    pub open spec fn after_event(self, event: Event) -> State {
        match event {
            Event::CursorMoved => State { cursor_in_window: true, ..self },
            Event::CursorLeft => State { cursor_in_window: false, ..self },
            Event::MouseInput(button, down) => self.after_button(button, down),
            Event::KeyboardInput(key, pressed) => self.after_key(key, pressed),
        }
    }

    /// What an event asks of the caller.
    pub open spec fn asked(self, event: Event) -> Action {
        match event {
            Event::CursorMoved => if self.space_pan || self.middle_pan {
                Action::PanCamera
            } else {
                Action::Nothing
            },
            Event::KeyboardInput(key, pressed) => asked_by(key, pressed),
            _ => Action::Nothing,
        }
    }

    /// Takes in an event of the window.
    pub fn window_event(&mut self, event: Event) -> (r: Action)
        requires
            old(self).wf(),
        ensures
            final(self).wf(),
            *final(self) == old(self).after_event(event),
            r == old(self).asked(event),
    {
        match event {
            Event::CursorMoved => {
                if self.cursor_moved() {
                    Action::PanCamera
                } else {
                    Action::Nothing
                }
            },
            Event::CursorLeft => {
                self.cursor_left();
                Action::Nothing
            },
            Event::MouseInput(button, down) => {
                self.button(button, down);
                Action::Nothing
            },
            Event::KeyboardInput(key, pressed) => self.key(key, pressed),
        }
    }

    /// What a frame does, `elapsed` nanoseconds after the last one and with the
    /// cursor at `cursor`: how many ticks it runs, and the stroke it stamps
    /// before them.
    pub fn frame(&mut self, elapsed: u128, cursor: Point) -> (r: (usize, Option<Stroke>))
        requires
            old(self).wf(),
        ensures
            final(self).wf(),
            (r.0 as int, final(self).clock) == old(self).clock.frame(elapsed as nat),
            r.0 <= MAX_TICKS_PER_FRAME,
            r.1 == old(self).stroke_at(cursor),
            *final(self) == (State {
                clock: final(self).clock,
                ..old(self).after_stroke(cursor)
            }),
    {
        let mut clock: Clock = self.clock;
        let ticks: usize = clock.ticks(elapsed);
        self.clock = clock;
        (ticks, self.stroke(cursor))
    }

    /// The state with a smaller brush, down to its limit.
    pub open spec fn with_smaller_brush(self, radius: Single) -> State {
        State { brush: radius.at_least(Single { bits: MIN_BRUSH }), ..self }
    }

    /// The state with a larger brush, up to its limit.
    pub open spec fn with_larger_brush(self, radius: Single) -> State {
        State { brush: radius.at_most(Single { bits: MAX_BRUSH }), ..self }
    }

    /// Sets the brush to `radius`, but no smaller than one cell.
    pub fn shrink_brush(&mut self, radius: Single)
        ensures
            *final(self) == (State {
                brush: radius.at_least(Single { bits: MIN_BRUSH }),
                ..*old(self)
            }),
            *final(self) == old(self).with_smaller_brush(radius),
    {
        self.brush = radius.max(Single { bits: MIN_BRUSH });
    }

    /// Sets the brush to `radius`, but no larger than 400 cells.
    pub fn grow_brush(&mut self, radius: Single)
        ensures
            *final(self) == (State {
                brush: radius.at_most(Single { bits: MAX_BRUSH }),
                ..*old(self)
            }),
            *final(self) == old(self).with_larger_brush(radius),
    {
        self.brush = radius.min(Single { bits: MAX_BRUSH });
    }
}

/// A stroke leaves no gap: while a button is held, each frame's segment starts
/// where the one before ended.
pub proof fn law_strokes_join_up(s: State, first: Point, second: Point)
    requires
        s.painting is Some,
    ensures
        s.stroke_at(first)->0.to == first,
        s.after_stroke(first).stroke_at(second)->0.from == first,
        s.after_stroke(first).stroke_at(second)->0.material == s.stroke_at(first)->0.material,
{
}

/// Pressing or releasing a painting button ends the stroke: the next segment
/// starts at the cursor.
pub proof fn law_buttons_start_strokes_afresh(s: State, button: Button, down: bool, cursor: Point)
    requires
        button == Button::Left || button == Button::Right,
    ensures
        s.after_button(button, down).stroke_at(cursor) is Some <==> down,
        down ==> s.after_button(button, down).stroke_at(cursor)->0.from == cursor,
{
}

/// Cycling forwards and cycling backwards undo each other.
pub proof fn law_cycling_is_reversible(s: State)
    requires
        s.wf(),
    ensures
        s.after_key(Key::E, true).after_key(Key::Q, true) == s,
        s.after_key(Key::Q, true).after_key(Key::E, true) == s,
{
}

/// Pausing twice is as if nothing was pressed.
pub proof fn law_pause_toggles(s: State)
    ensures
        s.after_key(Key::P, true).after_key(Key::P, true) == s,
{
}

/// Releasing a key only ever ends what holding it did: pan keys and the space
/// bar stop, everything else stays.
pub proof fn law_release_only_ends_holding(s: State, key: Key)
    ensures
        ({
            let after = s.after_key(key, false);
            &&& after.material == s.material
            &&& after.clock == s.clock
            &&& after.seed == s.seed
            &&& after.painting == s.painting
            &&& after.stroke_from == s.stroke_from
            &&& after.brush == s.brush
            &&& after.pan_left ==> s.pan_left
            &&& after.pan_right ==> s.pan_right
            &&& after.pan_up ==> s.pan_up
            &&& after.pan_down ==> s.pan_down
            &&& after.space_pan ==> s.space_pan
        }),
{
}

// --- what each key, button and event changes ---------------------------------

/// Each pan key moves its own side for as long as it is held, the space bar
/// pans with the mouse, and no other key touches these.
pub proof fn law_held_keys_move_their_own_side(s: State, key: Key, pressed: bool)
    ensures
        ({
            let after = s.after_key(key, pressed);
            &&& after.pan_left == (if key == Key::A || key == Key::ArrowLeft {
                pressed
            } else {
                s.pan_left
            })
            &&& after.pan_right == (if key == Key::D || key == Key::ArrowRight {
                pressed
            } else {
                s.pan_right
            })
            &&& after.pan_up == (if key == Key::W || key == Key::ArrowUp {
                pressed
            } else {
                s.pan_up
            })
            &&& after.pan_down == (if key == Key::S || key == Key::ArrowDown {
                pressed
            } else {
                s.pan_down
            })
            &&& after.space_pan == (if key == Key::Space {
                pressed
            } else {
                s.space_pan
            })
        }),
{
}

/// Pressing a digit takes its hotbar material: sand, water, stone, dirt, gravel,
/// coal, iron ore, oil, lava and air for 1 to 9 and 0. E goes one material on and
/// Q one back, round the table. No other key, and no release, changes the
/// material.
pub proof fn law_material_keys(s: State, key: Key, pressed: bool)
    requires
        s.wf(),
    ensures
        ({
            let m = s.after_key(key, pressed).material;
            &&& !pressed ==> m == s.material
            &&& pressed ==> match key {
                Key::Digit1 => m == 4,
                Key::Digit2 => m == 8,
                Key::Digit3 => m == 2,
                Key::Digit4 => m == 3,
                Key::Digit5 => m == 5,
                Key::Digit6 => m == 6,
                Key::Digit7 => m == 7,
                Key::Digit8 => m == 9,
                Key::Digit9 => m == 13,
                Key::Digit0 => m == 0,
                Key::E => m < 16 && (m == s.material + 1 || s.material == 15 && m == 0),
                Key::Q => m < 16 && (s.material == m + 1 || s.material == 0 && m == 15),
                _ => m == s.material,
            }
        }),
{
    assert(HOTBAR[0] == 4 && HOTBAR[1] == 8 && HOTBAR[2] == 2 && HOTBAR[3] == 3 && HOTBAR[4] == 5
        && HOTBAR[5] == 6 && HOTBAR[6] == 7 && HOTBAR[7] == 9 && HOTBAR[8] == 13 && HOTBAR[9]
        == 0);
}

/// P turns the pause over, N asks for a single step, R takes the next seed, each
/// when pressed. No other key touches these, and no key touches what belongs to
/// the mouse and the brush.
pub proof fn law_switch_keys(s: State, key: Key, pressed: bool)
    ensures
        ({
            let after = s.after_key(key, pressed);
            &&& after.clock.paused == (if key == Key::P && pressed {
                !s.clock.paused
            } else {
                s.clock.paused
            })
            &&& after.clock.step_once == (s.clock.step_once || key == Key::N && pressed)
            &&& after.clock.accumulator == s.clock.accumulator
            &&& after.seed == (if key == Key::R && pressed {
                following_seed(s.seed)
            } else {
                s.seed
            })
            &&& after.cursor_in_window == s.cursor_in_window
            &&& after.stroke_from == s.stroke_from
            &&& after.painting == s.painting
            &&& after.middle_pan == s.middle_pan
            &&& after.brush == s.brush
        }),
{
}

/// What an event asks for: escape exits, pressed or released; pressing a bracket
/// resizes the brush, the left one down and the right one up; pressing R builds a
/// new world; the cursor pans while the space bar or the middle button is held.
/// Nothing else is ever asked for.
pub proof fn law_events_ask_for_what_they_mean(s: State, event: Event)
    ensures
        s.asked(event) == Action::Exit <==> (event == Event::KeyboardInput(Key::Escape, true)
            || event == Event::KeyboardInput(Key::Escape, false)),
        s.asked(event) == Action::ShrinkBrush <==> event == Event::KeyboardInput(
            Key::BracketLeft,
            true,
        ),
        s.asked(event) == Action::GrowBrush <==> event == Event::KeyboardInput(
            Key::BracketRight,
            true,
        ),
        s.asked(event) == Action::Regenerate <==> event == Event::KeyboardInput(Key::R, true),
        s.asked(event) == Action::PanCamera <==> event == Event::CursorMoved && (s.space_pan
            || s.middle_pan),
{
}

/// The left button paints the chosen material and the right one air, for as long
/// as they are held; both start the stroke afresh. The middle button pans. No
/// button touches anything else.
pub proof fn law_buttons_paint_erase_and_pan(s: State, button: Button, down: bool)
    ensures
        ({
            let after = s.after_event(Event::MouseInput(button, down));
            let paints = button == Button::Left || button == Button::Right;
            &&& paints && !down ==> after.painting is None
            &&& button == Button::Left && down ==> after.painting == Some(s.material)
            &&& button == Button::Right && down ==> after.painting == Some(0u8)
            &&& paints ==> after.stroke_from is None
            &&& !paints ==> after.painting == s.painting && after.stroke_from == s.stroke_from
            &&& after.middle_pan == (if button == Button::Middle {
                down
            } else {
                s.middle_pan
            })
            &&& after == (State {
                painting: after.painting,
                stroke_from: after.stroke_from,
                middle_pan: after.middle_pan,
                ..s
            })
        }),
{
}

/// The cursor is in the window once it moved there and until it left; neither
/// touches anything else. A key event is the key.
pub proof fn law_cursor_comes_and_goes(s: State, key: Key, pressed: bool)
    ensures
        s.after_event(Event::CursorMoved) == (State { cursor_in_window: true, ..s }),
        s.after_event(Event::CursorLeft) == (State { cursor_in_window: false, ..s }),
        s.after_event(Event::KeyboardInput(key, pressed)) == s.after_key(key, pressed),
{
}

/// A frame stamps a stroke exactly while something is painted: of the material
/// painted, with the brush's radius, ending at the cursor, and starting where the
/// last one ended or, if it is the first, at the cursor. It then starts the next
/// one at the cursor and touches nothing else.
pub proof fn law_strokes_follow_the_cursor(s: State, cursor: Point)
    ensures
        s.stroke_at(cursor) is Some <==> s.painting is Some,
        s.painting is Some ==> {
            let stroke = s.stroke_at(cursor)->0;
            &&& stroke.material == s.painting->0
            &&& stroke.radius == s.brush
            &&& stroke.to == cursor
            &&& stroke.from == (if s.stroke_from is Some {
                s.stroke_from->0
            } else {
                cursor
            })
            &&& s.after_stroke(cursor) == (State { stroke_from: Some(cursor), ..s })
        },
        s.painting is None ==> s.after_stroke(cursor) == s,
{
}

/// The brush never gets smaller than one cell nor larger than 400; any radius in
/// between is taken as it is, and nothing else changes.
pub proof fn law_brush_stays_in_range(s: State, radius: Single)
    ensures
        ({
            let one = Single { bits: 0x3f80_0000 };
            let most = Single { bits: 0x43c8_0000 };
            let smaller = s.with_smaller_brush(radius);
            let larger = s.with_larger_brush(radius);
            &&& smaller == (State { brush: smaller.brush, ..s })
            &&& larger == (State { brush: larger.brush, ..s })
            &&& radius.exceeds(one) ==> smaller.brush == radius
            &&& one.exceeds(radius) ==> smaller.brush == one
            &&& !one.exceeds(smaller.brush)
            &&& most.exceeds(radius) ==> larger.brush == radius
            &&& radius.exceeds(most) ==> larger.brush == most
            &&& !larger.brush.exceeds(most)
        }),
{
}

/// The view moves right and down with the keys for it, left and up with theirs,
/// by one either way, and stays on an axis where none or both are held. Pressing
/// the opposite key undoes a direction.
pub proof fn law_opposite_keys_cancel(s: State)
    ensures
        s.direction().0 == 0 <==> s.pan_left == s.pan_right,
        s.direction().0 == 1 <==> s.pan_right && !s.pan_left,
        s.direction().0 == -1 <==> s.pan_left && !s.pan_right,
        s.direction().1 == 0 <==> s.pan_up == s.pan_down,
        s.direction().1 == 1 <==> s.pan_down && !s.pan_up,
        s.direction().1 == -1 <==> s.pan_up && !s.pan_down,
{
}

} // verus!
