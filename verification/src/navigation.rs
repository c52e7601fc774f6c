//! Continuous navigation: held keys become per-tick motion of the viewport.

use crate::error::ConfigError;
use crate::fixed::{saturate, Fixed};
use crate::viewport::{
    lemma_scaled_down_bounds, lemma_scaled_up_grows, scale_down, scale_up, scaled_down,
    scaled_up, Viewport, ViewportModel,
};
use vstd::prelude::*;

verus! {

/// Raw value of the distance moved per tick at start-up (0.04).
pub const INITIAL_MOVE_SPEED: i64 = 40_000_000;

/// Raw units by which a length may differ after one zoom step inwards
/// followed by one zoom step outwards.
pub const ROUND_TRIP_TOLERANCE: i64 = 1;

/// The six controls of the view.
#[derive(Clone, Copy, Debug, PartialEq, Eq, Structural)]
pub enum Key {
    Up,
    Down,
    Left,
    Right,
    ZoomIn,
    ZoomOut,
}

/// What the windowing layer reports between two frames.
#[derive(Clone, Copy, Debug, PartialEq, Eq, Structural)]
pub enum InputEvent {
    /// The window was asked to close.
    WindowClose,
    /// A control was pressed or released.
    KeyChange { key: Key, pressed: bool },
    /// Anything else, such as a key that is no control.
    Unrecognized,
}

/// Which controls are held. All sixty-four combinations are legal.
#[derive(Clone, Copy, Debug, PartialEq, Eq, Structural)]
pub struct NavigationFlags {
    pub move_up: bool,
    pub move_down: bool,
    pub move_left: bool,
    pub move_right: bool,
    pub zoom_in: bool,
    pub zoom_out: bool,
}

impl NavigationFlags {
    /// No control is held.
    pub open spec fn none() -> NavigationFlags {
        NavigationFlags {
            move_up: false,
            move_down: false,
            move_left: false,
            move_right: false,
            zoom_in: false,
            zoom_out: false,
        }
    }

    /// Whether `key` is held.
    pub open spec fn holds(self, key: Key) -> bool {
        match key {
            Key::Up => self.move_up,
            Key::Down => self.move_down,
            Key::Left => self.move_left,
            Key::Right => self.move_right,
            Key::ZoomIn => self.zoom_in,
            Key::ZoomOut => self.zoom_out,
        }
    }

    /// The flags with that of `key` set to `pressed` and the others kept.
    pub open spec fn with_key(self, key: Key, pressed: bool) -> NavigationFlags {
        match key {
            Key::Up => NavigationFlags { move_up: pressed, ..self },
            Key::Down => NavigationFlags { move_down: pressed, ..self },
            Key::Left => NavigationFlags { move_left: pressed, ..self },
            Key::Right => NavigationFlags { move_right: pressed, ..self },
            Key::ZoomIn => NavigationFlags { zoom_in: pressed, ..self },
            Key::ZoomOut => NavigationFlags { zoom_out: pressed, ..self },
        }
    }
}

/// What the most recent change of `key` among `events` set it to, if there
/// is one.
pub open spec fn latest_change(events: Seq<InputEvent>, key: Key) -> Option<bool>
    decreases events.len(),
{
    if events.len() == 0 {
        None
    } else if events.last() == (InputEvent::KeyChange { key, pressed: true }) {
        Some(true)
    } else if events.last() == (InputEvent::KeyChange { key, pressed: false }) {
        Some(false)
    } else {
        latest_change(events.drop_last(), key)
    }
}

/// Mathematical content of a [`NavigationState`].
pub struct NavigationModel {
    pub viewport: ViewportModel,
    pub move_speed: int,
    pub flags: NavigationFlags,
}

impl NavigationModel {
    /// The viewport is valid and the move speed is positive and
    /// representable.
    pub open spec fn valid(self) -> bool {
        self.viewport.valid() && 0 < self.move_speed <= i64::MAX
    }

    /// The state at start-up: centre (-0.75, 0), half-extents 1.75 and 1,
    /// move speed 0.04, nothing held.
    pub open spec fn initial() -> NavigationModel {
        NavigationModel {
            viewport: ViewportModel::initial(),
            move_speed: INITIAL_MOVE_SPEED as int,
            flags: NavigationFlags::none(),
        }
    }

    /// The state after one event: a key change sets that key's flag, and
    /// every other event leaves the state as it is.
    pub open spec fn after_event(self, event: InputEvent) -> NavigationModel {
        match event {
            InputEvent::KeyChange { key, pressed } => NavigationModel {
                flags: self.flags.with_key(key, pressed),
                ..self
            },
            _ => self,
        }
    }

    /// The state after a sequence of events, taken in order of arrival.
    pub open spec fn after_events(self, events: Seq<InputEvent>) -> NavigationModel
        decreases events.len(),
    {
        if events.len() == 0 {
            self
        } else {
            self.after_events(events.drop_last()).after_event(events.last())
        }
    }

    /// Horizontal motion of one tick: the move speed for `move_right`, its
    /// negation for `move_left`, their sum when both are held.
    pub open spec fn step_x(self) -> int {
        (if self.flags.move_right { self.move_speed } else { 0 })
            - (if self.flags.move_left { self.move_speed } else { 0 })
    }

    /// Vertical motion of one tick: the move speed for `move_up`, its
    /// negation for `move_down`, their sum when both are held.
    pub open spec fn step_y(self) -> int {
        (if self.flags.move_up { self.move_speed } else { 0 })
            - (if self.flags.move_down { self.move_speed } else { 0 })
    }

    /// The state after one tick: the centre moves by the steps of the held
    /// directions; then `zoom_in` scales half-extents and move speed down;
    /// then `zoom_out` scales them up. The flags stay.
    pub open spec fn ticked(self) -> NavigationModel {
        let moved = self.viewport.panned(self.step_x(), self.step_y());
        let narrowed = if self.flags.zoom_in {
            moved.zoomed_in()
        } else {
            moved
        };
        let slowed = if self.flags.zoom_in {
            scaled_down(self.move_speed)
        } else {
            self.move_speed
        };
        NavigationModel {
            viewport: if self.flags.zoom_out {
                narrowed.zoomed_out()
            } else {
                narrowed
            },
            move_speed: if self.flags.zoom_out {
                scaled_up(slowed)
            } else {
                slowed
            },
            flags: self.flags,
        }
    }

    /// The state after `n` ticks with no event in between.
    pub open spec fn ticked_times(self, n: nat) -> NavigationModel
        decreases n,
    {
        if n == 0 {
            self
        } else {
            self.ticked_times((n - 1) as nat).ticked()
        }
    }
}

/// The viewport, the distance moved per tick, and the held controls.
#[derive(Clone, Copy, Debug)]
pub struct NavigationState {
    viewport: Viewport,
    move_speed: Fixed,
    flags: NavigationFlags,
}

impl View for NavigationState {
    type V = NavigationModel;

    closed spec fn view(&self) -> NavigationModel {
        NavigationModel {
            viewport: self.viewport@,
            move_speed: self.move_speed@,
            flags: self.flags,
        }
    }
}

impl NavigationState {
    #[verifier::type_invariant]
    spec fn positive_speed(self) -> bool {
        self.move_speed.raw > 0
    }

    /// A state showing `viewport` with no control held. Refused unless the
    /// move speed is greater than zero.
    pub fn new(viewport: Viewport, move_speed: Fixed) -> (r: Result<NavigationState, ConfigError>)
        ensures
            r is Ok <==> move_speed@ > 0,
            r matches Ok(s) ==> s@.valid() && s@ == (NavigationModel {
                viewport: viewport@,
                move_speed: move_speed@,
                flags: NavigationFlags::none(),
            }),
            r matches Err(e) ==> e == ConfigError::NonPositiveSpeed,
    {
        if move_speed.raw > 0 {
            let _ = viewport.half_width();
            Ok(
                NavigationState {
                    viewport,
                    move_speed,
                    flags: NavigationFlags {
                        move_up: false,
                        move_down: false,
                        move_left: false,
                        move_right: false,
                        zoom_in: false,
                        zoom_out: false,
                    },
                },
            )
        } else {
            Err(ConfigError::NonPositiveSpeed)
        }
    }

    /// The state at start-up.
    pub fn initial() -> (s: NavigationState)
        ensures
            s@ == NavigationModel::initial(),
            s@.valid(),
    {
        NavigationState {
            viewport: Viewport::initial(),
            move_speed: Fixed { raw: INITIAL_MOVE_SPEED },
            flags: NavigationFlags {
                move_up: false,
                move_down: false,
                move_left: false,
                move_right: false,
                zoom_in: false,
                zoom_out: false,
            },
        }
    }

    /// The current viewport.
    pub fn viewport(&self) -> (v: Viewport)
        ensures
            v@ == self@.viewport,
            self@.valid(),
    {
        proof {
            use_type_invariant(self);
        }
        let _ = self.viewport.half_width();
        self.viewport
    }

    /// The distance that a held direction moves the centre per tick.
    pub fn move_speed(&self) -> (s: Fixed)
        ensures
            s@ == self@.move_speed,
            s@ > 0,
    {
        proof {
            use_type_invariant(self);
        }
        self.move_speed
    }

    /// The held controls.
    pub fn flags(&self) -> (f: NavigationFlags)
        ensures
            f == self@.flags,
    {
        self.flags
    }

    /// Takes in one event from the windowing layer.
    pub fn handle_event(&mut self, event: InputEvent)
        ensures
            final(self)@ == old(self)@.after_event(event),
    {
        proof {
            use_type_invariant(&*self);
        }
        match event {
            InputEvent::KeyChange { key, pressed } => {
                match key {
                    Key::Up => {
                        self.flags.move_up = pressed;
                    },
                    Key::Down => {
                        self.flags.move_down = pressed;
                    },
                    Key::Left => {
                        self.flags.move_left = pressed;
                    },
                    Key::Right => {
                        self.flags.move_right = pressed;
                    },
                    Key::ZoomIn => {
                        self.flags.zoom_in = pressed;
                    },
                    Key::ZoomOut => {
                        self.flags.zoom_out = pressed;
                    },
                }
            },
            _ => {},
        }
    }

    /// Advances the view by one frame according to the held controls.
    pub fn tick(&mut self)
        ensures
            final(self)@ == old(self)@.ticked(),
            final(self)@.valid(),
    {
        proof {
            use_type_invariant(&*self);
        }
        let speed = self.move_speed;
        let zero = Fixed { raw: 0 };
        let right = if self.flags.move_right { speed } else { zero };
        let left = if self.flags.move_left { speed } else { zero };
        let up = if self.flags.move_up { speed } else { zero };
        let down = if self.flags.move_down { speed } else { zero };
        let mut viewport = self.viewport.panned(right.minus(left), up.minus(down));
        let mut new_speed = speed;
        if self.flags.zoom_in {
            viewport = viewport.zoomed_in();
            new_speed = scale_down(new_speed);
        }
        if self.flags.zoom_out {
            viewport = viewport.zoomed_out();
            new_speed = scale_up(new_speed);
        }
        self.viewport = viewport;
        self.move_speed = new_speed;
    }
}

/// One zoom step inwards and then one outwards bring a positive length
/// back to within [`ROUND_TRIP_TOLERANCE`] raw units of where it was.
pub proof fn lemma_scale_round_trip(v: int)
    requires
        0 < v <= i64::MAX,
    ensures
        v - ROUND_TRIP_TOLERANCE <= scaled_up(scaled_down(v)) <= v + ROUND_TRIP_TOLERANCE,
        v > 1 ==> scaled_up(scaled_down(v)) <= v,
{
    lemma_scaled_down_bounds(v);
    let a = scaled_down(v);
    assert(a == if (v * 950_000_000) / 1_000_000_000 < 1 {
        1
    } else {
        (v * 950_000_000) / 1_000_000_000
    });
    assert(scaled_up(a) == saturate(-((-(a * 1_000_000_000)) / 950_000_000)));
}

/// A tick that zooms in followed by a tick that zooms out brings both
/// half-extents and the move speed back to within
/// [`ROUND_TRIP_TOLERANCE`] raw units of their values before the two
/// ticks, whichever directions are held meanwhile.
pub proof fn lemma_zoom_round_trip(m: NavigationModel)
    requires
        m.valid(),
        m.flags.zoom_in,
        !m.flags.zoom_out,
    ensures
        ({
            let zoomed = m.ticked();
            let back = (NavigationModel {
                flags: NavigationFlags { zoom_in: false, zoom_out: true, ..m.flags },
                ..zoomed
            }).ticked();
            &&& m.viewport.hx - ROUND_TRIP_TOLERANCE <= back.viewport.hx <= m.viewport.hx
                + ROUND_TRIP_TOLERANCE
            &&& m.viewport.hy - ROUND_TRIP_TOLERANCE <= back.viewport.hy <= m.viewport.hy
                + ROUND_TRIP_TOLERANCE
            &&& m.move_speed - ROUND_TRIP_TOLERANCE <= back.move_speed <= m.move_speed
                + ROUND_TRIP_TOLERANCE
        }),
{
    lemma_scale_round_trip(m.viewport.hx);
    lemma_scale_round_trip(m.viewport.hy);
    lemma_scale_round_trip(m.move_speed);
}

/// With no zoom control held, `n` ticks move the centre by exactly `n`
/// times the step of the held directions, up to saturation at the ends of
/// the representable range, and leave the extents, the move speed and the
/// flags as they are.
pub proof fn lemma_steady_motion(m: NavigationModel, n: nat)
    requires
        m.valid(),
        !m.flags.zoom_in,
        !m.flags.zoom_out,
    ensures
        m.ticked_times(n).viewport.cx == saturate(m.viewport.cx + n * m.step_x()),
        m.ticked_times(n).viewport.cy == saturate(m.viewport.cy + n * m.step_y()),
        m.ticked_times(n).viewport.hx == m.viewport.hx,
        m.ticked_times(n).viewport.hy == m.viewport.hy,
        m.ticked_times(n).move_speed == m.move_speed,
        m.ticked_times(n).flags == m.flags,
    decreases n,
{
    if n == 0 {
        assert(0 * m.step_x() == 0);
        assert(0 * m.step_y() == 0);
    } else {
        let before = (n - 1) as nat;
        lemma_steady_motion(m, before);
        lemma_repeated_step(before, m.step_x());
        lemma_repeated_step(before, m.step_y());
    }
}

/// One more step adds the step once more, and steps that share a sign add
/// up to a distance of that sign.
proof fn lemma_repeated_step(count: nat, step: int)
    ensures
        (count + 1) * step == count * step + step,
        step >= 0 ==> count * step >= 0,
        step <= 0 ==> count * step <= 0,
{
    assert((count + 1) * step == count * step + step) by (nonlinear_arith);
    assert(step >= 0 ==> count * step >= 0) by (nonlinear_arith);
    assert(step <= 0 ==> count * step <= 0) by (nonlinear_arith);
}

/// Holding `move_right` alone among the horizontal and zoom controls for
/// `n` ticks moves the centre to the right by exactly `n` times the move
/// speed, up to saturation at the end of the representable range. The
/// vertical controls have no part in it.
pub proof fn lemma_hold_right(m: NavigationModel, n: nat)
    requires
        m.valid(),
        m.flags.move_right,
        !m.flags.move_left,
        !m.flags.zoom_in,
        !m.flags.zoom_out,
    ensures
        m.ticked_times(n).viewport.cx == saturate(m.viewport.cx + n * m.move_speed),
        m.viewport.cx + n * m.move_speed <= i64::MAX ==> m.ticked_times(n).viewport.cx
            == m.viewport.cx + n * m.move_speed,
        m.ticked_times(n).move_speed == m.move_speed,
{
    lemma_steady_motion(m, n);
    lemma_repeated_step(n, m.move_speed);
}

/// Events move nothing by themselves, and after any sequence of them each
/// flag shows the most recent change of its key, or its old value where
/// no event named that key.
pub proof fn lemma_flags_follow_latest_event(
    m: NavigationModel,
    events: Seq<InputEvent>,
    key: Key,
)
    ensures
        m.after_events(events).viewport == m.viewport,
        m.after_events(events).move_speed == m.move_speed,
        m.after_events(events).flags.holds(key) == match latest_change(events, key) {
            Some(pressed) => pressed,
            None => m.flags.holds(key),
        },
    decreases events.len(),
{
    if events.len() > 0 {
        lemma_flags_follow_latest_event(m, events.drop_last(), key);
    }
}

/// With two opposite directions held, a tick leaves that coordinate of the
/// centre where it was.
pub proof fn lemma_opposite_directions_cancel(m: NavigationModel)
    requires
        m.valid(),
    ensures
        m.flags.move_left && m.flags.move_right ==> m.ticked().viewport.cx == m.viewport.cx,
        m.flags.move_up && m.flags.move_down ==> m.ticked().viewport.cy == m.viewport.cy,
{
}

/// A tick keeps a valid state valid: the half-extents and the move speed
/// stay greater than zero.
pub proof fn lemma_tick_keeps_valid(m: NavigationModel)
    requires
        m.valid(),
    ensures
        m.ticked().valid(),
{
    lemma_scaled_down_bounds(m.viewport.hx);
    lemma_scaled_down_bounds(m.viewport.hy);
    lemma_scaled_down_bounds(m.move_speed);
    lemma_scaled_up_grows(scaled_down(m.viewport.hx));
    lemma_scaled_up_grows(scaled_down(m.viewport.hy));
    lemma_scaled_up_grows(scaled_down(m.move_speed));
    lemma_scaled_up_grows(m.viewport.hx);
    lemma_scaled_up_grows(m.viewport.hy);
    lemma_scaled_up_grows(m.move_speed);
}

} // verus!
