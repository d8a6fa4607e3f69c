//! The decisions of the application loop: which keys and mouse buttons are
//! held or changed this frame, how many fixed updates a frame runs, and what
//! to do with the surface texture the window hands out.
//!
//! Keys and mouse buttons are identified by number; the caller maps the
//! window system's codes to numbers one to one.

use std::collections::HashSet;
use vstd::prelude::*;

verus! {

broadcast use vstd::std_specs::hash::group_hash_axioms;

/// The mathematical state of an [`InputState`].
pub struct InputView {
    pub keys: Set<u32>,
    pub keys_just_pressed: Set<u32>,
    pub keys_just_released: Set<u32>,
    pub mouse_buttons: Set<u32>,
    pub mouse_buttons_just_pressed: Set<u32>,
    pub mouse_buttons_just_released: Set<u32>,
}

impl InputView {
    /// The state after `key` went down.
    pub open spec fn key_pressed_event(self, key: u32) -> InputView {
        InputView {
            keys: self.keys.insert(key),
            keys_just_pressed: self.keys_just_pressed.insert(key),
            ..self
        }
    }

    /// The state after `key` went up.
    pub open spec fn key_released_event(self, key: u32) -> InputView {
        InputView {
            keys: self.keys.remove(key),
            keys_just_released: self.keys_just_released.insert(key),
            ..self
        }
    }

    /// The state after mouse button `button` went down.
    pub open spec fn button_pressed_event(self, button: u32) -> InputView {
        InputView {
            mouse_buttons: self.mouse_buttons.insert(button),
            mouse_buttons_just_pressed: self.mouse_buttons_just_pressed.insert(button),
            ..self
        }
    }

    /// The state after mouse button `button` went up.
    pub open spec fn button_released_event(self, button: u32) -> InputView {
        InputView {
            mouse_buttons: self.mouse_buttons.remove(button),
            mouse_buttons_just_released: self.mouse_buttons_just_released.insert(button),
            ..self
        }
    }

    /// The state at the start of a new frame.
    pub open spec fn new_frame(self) -> InputView {
        InputView {
            keys_just_pressed: Set::empty(),
            keys_just_released: Set::empty(),
            mouse_buttons_just_pressed: Set::empty(),
            mouse_buttons_just_released: Set::empty(),
            ..self
        }
    }
}

/// A key that went down is held and was just pressed; one that went up is
/// not held and was just released, and a key pressed and released in the
/// same frame counts as both just pressed and just released. Other keys are
/// not affected. A new frame keeps the held keys and forgets the rest.
pub proof fn lemma_key_events(v: InputView, key: u32, other: u32)
    requires
        other != key,
    ensures
        v.key_pressed_event(key).keys.contains(key),
        v.key_pressed_event(key).keys_just_pressed.contains(key),
        !v.key_released_event(key).keys.contains(key),
        v.key_released_event(key).keys_just_released.contains(key),
        ({
            let w = v.key_pressed_event(key).key_released_event(key);
            &&& !w.keys.contains(key)
            &&& w.keys_just_pressed.contains(key)
            &&& w.keys_just_released.contains(key)
        }),
        v.key_pressed_event(key).keys.contains(other) == v.keys.contains(other),
        v.key_released_event(key).keys.contains(other) == v.keys.contains(other),
        v.new_frame().keys == v.keys,
        !v.new_frame().keys_just_pressed.contains(key),
        !v.new_frame().keys_just_released.contains(key),
        v.key_pressed_event(key).new_frame().keys.contains(key),
{
}

/// The same holds of mouse buttons.
pub proof fn lemma_button_events(v: InputView, button: u32, other: u32)
    requires
        other != button,
    ensures
        v.button_pressed_event(button).mouse_buttons.contains(button),
        v.button_pressed_event(button).mouse_buttons_just_pressed.contains(button),
        !v.button_released_event(button).mouse_buttons.contains(button),
        v.button_released_event(button).mouse_buttons_just_released.contains(button),
        v.button_pressed_event(button).mouse_buttons.contains(other) == v.mouse_buttons.contains(
            other,
        ),
        v.button_released_event(button).mouse_buttons.contains(other) == v.mouse_buttons.contains(
            other,
        ),
        v.new_frame().mouse_buttons == v.mouse_buttons,
        !v.new_frame().mouse_buttons_just_pressed.contains(button),
        v.button_pressed_event(button).new_frame().mouse_buttons.contains(button),
{
}

/// The keys and mouse buttons that are held, and those pressed or released
/// since the frame began.
pub struct InputState {
    keys: HashSet<u32>,
    keys_just_pressed: HashSet<u32>,
    keys_just_released: HashSet<u32>,
    mouse_buttons: HashSet<u32>,
    mouse_buttons_just_pressed: HashSet<u32>,
    mouse_buttons_just_released: HashSet<u32>,
}

impl View for InputState {
    type V = InputView;

    closed spec fn view(&self) -> InputView {
        InputView {
            keys: self.keys@,
            keys_just_pressed: self.keys_just_pressed@,
            keys_just_released: self.keys_just_released@,
            mouse_buttons: self.mouse_buttons@,
            mouse_buttons_just_pressed: self.mouse_buttons_just_pressed@,
            mouse_buttons_just_released: self.mouse_buttons_just_released@,
        }
    }
}

impl InputState {
    /// Nothing held, nothing changed.
    pub fn new() -> (r: Self)
        ensures
            r@.keys == Set::<u32>::empty(),
            r@.keys_just_pressed == Set::<u32>::empty(),
            r@.keys_just_released == Set::<u32>::empty(),
            r@.mouse_buttons == Set::<u32>::empty(),
            r@.mouse_buttons_just_pressed == Set::<u32>::empty(),
            r@.mouse_buttons_just_released == Set::<u32>::empty(),
    {
        InputState {
            keys: HashSet::new(),
            keys_just_pressed: HashSet::new(),
            keys_just_released: HashSet::new(),
            mouse_buttons: HashSet::new(),
            mouse_buttons_just_pressed: HashSet::new(),
            mouse_buttons_just_released: HashSet::new(),
        }
    }

    /// Starts a frame: forgets what was pressed or released, keeps what is held.
    pub fn begin_frame(&mut self)
        ensures
            final(self)@ == old(self)@.new_frame(),
    {
        self.keys_just_pressed.clear();
        self.keys_just_released.clear();
        self.mouse_buttons_just_pressed.clear();
        self.mouse_buttons_just_released.clear();
    }

    /// Records that `key` went down.
    pub fn press_key(&mut self, key: u32)
        ensures
            final(self)@ == old(self)@.key_pressed_event(key),
    {
        self.keys_just_pressed.insert(key);
        self.keys.insert(key);
    }

    /// Records that `key` went up.
    pub fn release_key(&mut self, key: u32)
        ensures
            final(self)@ == old(self)@.key_released_event(key),
    {
        self.keys_just_released.insert(key);
        self.keys.remove(&key);
    }

    /// Records that mouse button `button` went down.
    pub fn press_mouse_button(&mut self, button: u32)
        ensures
            final(self)@ == old(self)@.button_pressed_event(button),
    {
        self.mouse_buttons_just_pressed.insert(button);
        self.mouse_buttons.insert(button);
    }

    /// Records that mouse button `button` went up.
    pub fn release_mouse_button(&mut self, button: u32)
        ensures
            final(self)@ == old(self)@.button_released_event(button),
    {
        self.mouse_buttons_just_released.insert(button);
        self.mouse_buttons.remove(&button);
    }

    pub fn key_pressed(&self, key: u32) -> (r: bool)
        ensures
            r == self@.keys.contains(key),
    {
        self.keys.contains(&key)
    }

    pub fn key_released(&self, key: u32) -> (r: bool)
        ensures
            r == !self@.keys.contains(key),
    {
        !self.keys.contains(&key)
    }

    pub fn key_just_pressed(&self, key: u32) -> (r: bool)
        ensures
            r == self@.keys_just_pressed.contains(key),
    {
        self.keys_just_pressed.contains(&key)
    }

    pub fn key_just_released(&self, key: u32) -> (r: bool)
        ensures
            r == self@.keys_just_released.contains(key),
    {
        self.keys_just_released.contains(&key)
    }

    pub fn mouse_button_pressed(&self, button: u32) -> (r: bool)
        ensures
            r == self@.mouse_buttons.contains(button),
    {
        self.mouse_buttons.contains(&button)
    }

    pub fn mouse_button_released(&self, button: u32) -> (r: bool)
        ensures
            r == !self@.mouse_buttons.contains(button),
    {
        !self.mouse_buttons.contains(&button)
    }

    pub fn mouse_button_just_pressed(&self, button: u32) -> (r: bool)
        ensures
            r == self@.mouse_buttons_just_pressed.contains(button),
    {
        self.mouse_buttons_just_pressed.contains(&button)
    }

    pub fn mouse_button_just_released(&self, button: u32) -> (r: bool)
        ensures
            r == self@.mouse_buttons_just_released.contains(button),
    {
        self.mouse_buttons_just_released.contains(&button)
    }
}

/// A change of the keyboard or the mouse buttons reported by the window.
#[derive(Clone, Copy, Debug)]
pub enum InputEvent {
    KeyPressed(u32),
    KeyReleased(u32),
    MouseButtonPressed(u32),
    MouseButtonReleased(u32),
}

/// The number of the left mouse button.
pub const MOUSE_BUTTON_LEFT: u32 = 0;

/// The number of the right mouse button.
pub const MOUSE_BUTTON_RIGHT: u32 = 1;

/// The number of the middle mouse button.
pub const MOUSE_BUTTON_MIDDLE: u32 = 2;

/// The number of the "back" mouse button.
pub const MOUSE_BUTTON_BACK: u32 = 3;

/// The number of the "forward" mouse button.
pub const MOUSE_BUTTON_FORWARD: u32 = 4;

/// The state after `event`.
pub open spec fn spec_apply(v: InputView, event: InputEvent) -> InputView {
    match event {
        InputEvent::KeyPressed(k) => v.key_pressed_event(k),
        InputEvent::KeyReleased(k) => v.key_released_event(k),
        InputEvent::MouseButtonPressed(b) => v.button_pressed_event(b),
        InputEvent::MouseButtonReleased(b) => v.button_released_event(b),
    }
}

/// A window event changes exactly what it reports: a key or button that went
/// down is held and just pressed, one that went up is no longer held and is
/// just released, every other key and button keeps its held state, and key
/// events leave the mouse buttons alone and the other way round.
pub proof fn lemma_apply_events(v: InputView, event: InputEvent)
    ensures
        match event {
            InputEvent::KeyPressed(k) => {
                &&& spec_apply(v, event).keys.contains(k)
                &&& spec_apply(v, event).keys_just_pressed.contains(k)
                &&& forall|o: u32| o != k ==> (#[trigger] spec_apply(v, event).keys.contains(o)
                    <==> v.keys.contains(o))
                &&& spec_apply(v, event).keys == v.keys.insert(k)
                &&& spec_apply(v, event).keys_just_pressed == v.keys_just_pressed.insert(k)
                &&& spec_apply(v, event).keys_just_released == v.keys_just_released
                &&& spec_apply(v, event).mouse_buttons == v.mouse_buttons
            },
            InputEvent::KeyReleased(k) => {
                &&& !spec_apply(v, event).keys.contains(k)
                &&& spec_apply(v, event).keys_just_released.contains(k)
                &&& forall|o: u32| o != k ==> (#[trigger] spec_apply(v, event).keys.contains(o)
                    <==> v.keys.contains(o))
                &&& spec_apply(v, event).keys == v.keys.remove(k)
                &&& spec_apply(v, event).keys_just_released == v.keys_just_released.insert(k)
                &&& spec_apply(v, event).keys_just_pressed == v.keys_just_pressed
                &&& spec_apply(v, event).mouse_buttons == v.mouse_buttons
            },
            InputEvent::MouseButtonPressed(b) => {
                &&& spec_apply(v, event).mouse_buttons.contains(b)
                &&& spec_apply(v, event).mouse_buttons_just_pressed.contains(b)
                &&& spec_apply(v, event).mouse_buttons == v.mouse_buttons.insert(b)
                &&& spec_apply(v, event).mouse_buttons_just_pressed
                    == v.mouse_buttons_just_pressed.insert(b)
                &&& spec_apply(v, event).mouse_buttons_just_released
                    == v.mouse_buttons_just_released
                &&& spec_apply(v, event).keys == v.keys
            },
            InputEvent::MouseButtonReleased(b) => {
                &&& !spec_apply(v, event).mouse_buttons.contains(b)
                &&& spec_apply(v, event).mouse_buttons_just_released.contains(b)
                &&& spec_apply(v, event).mouse_buttons == v.mouse_buttons.remove(b)
                &&& spec_apply(v, event).mouse_buttons_just_released
                    == v.mouse_buttons_just_released.insert(b)
                &&& spec_apply(v, event).mouse_buttons_just_pressed
                    == v.mouse_buttons_just_pressed
                &&& spec_apply(v, event).keys == v.keys
            },
        },
{
}

impl InputState {
    /// Records a change of the keyboard or the mouse buttons.
    pub fn apply(&mut self, event: InputEvent)
        ensures
            final(self)@ == spec_apply(old(self)@, event),
            match event {
                InputEvent::KeyPressed(k) => {
                    &&& final(self)@.keys == old(self)@.keys.insert(k)
                    &&& final(self)@.keys_just_pressed == old(self)@.keys_just_pressed.insert(k)
                    &&& final(self)@.keys_just_released == old(self)@.keys_just_released
                    &&& final(self)@.mouse_buttons == old(self)@.mouse_buttons
                },
                InputEvent::KeyReleased(k) => {
                    &&& final(self)@.keys == old(self)@.keys.remove(k)
                    &&& final(self)@.keys_just_released == old(self)@.keys_just_released.insert(k)
                    &&& final(self)@.keys_just_pressed == old(self)@.keys_just_pressed
                    &&& final(self)@.mouse_buttons == old(self)@.mouse_buttons
                },
                InputEvent::MouseButtonPressed(b) => {
                    &&& final(self)@.mouse_buttons == old(self)@.mouse_buttons.insert(b)
                    &&& final(self)@.mouse_buttons_just_pressed
                        == old(self)@.mouse_buttons_just_pressed.insert(b)
                    &&& final(self)@.mouse_buttons_just_released
                        == old(self)@.mouse_buttons_just_released
                    &&& final(self)@.keys == old(self)@.keys
                },
                InputEvent::MouseButtonReleased(b) => {
                    &&& final(self)@.mouse_buttons == old(self)@.mouse_buttons.remove(b)
                    &&& final(self)@.mouse_buttons_just_released
                        == old(self)@.mouse_buttons_just_released.insert(b)
                    &&& final(self)@.mouse_buttons_just_pressed
                        == old(self)@.mouse_buttons_just_pressed
                    &&& final(self)@.keys == old(self)@.keys
                },
            },
    {
        proof {
            lemma_apply_events(old(self)@, event);
        }
        match event {
            InputEvent::KeyPressed(k) => self.press_key(k),
            InputEvent::KeyReleased(k) => self.release_key(k),
            InputEvent::MouseButtonPressed(b) => self.press_mouse_button(b),
            InputEvent::MouseButtonReleased(b) => self.release_mouse_button(b),
        }
    }
}

/// The fixed updates of one frame, with times in nanoseconds.
pub struct FixedUpdates {
    /// How many fixed updates to run now.
    pub steps: u64,
    /// The time left over for the next frame.
    pub fixed_time: u128,
    /// When the loop fell too far behind: the time it gives up on (the
    /// left-over time is then reset to zero).
    pub skipped: Option<u128>,
}

/// Runs fixed updates for the time accumulated (`fixed_time + dt`), one per
/// `interval`, but at most `max_steps` of them; when the time would allow as
/// many or more, the rest of the time is given up.
pub fn fixed_update_steps(fixed_time: u128, dt: u128, interval: u128, max_steps: u64) -> (r:
    FixedUpdates)
    requires
        fixed_time + dt <= u128::MAX,
    ensures
        ({
            let total = fixed_time + dt;
            if total >= max_steps * interval {
                &&& r.steps == max_steps
                &&& r.fixed_time == 0
                &&& r.skipped == Some((total - max_steps * interval) as u128)
            } else {
                &&& r.steps < max_steps
                &&& r.steps * interval <= total < (r.steps + 1) * interval
                &&& r.fixed_time == total - r.steps * interval
                &&& r.skipped is None
            }
        }),
{
    let total = fixed_time + dt;
    let mut time = total;
    let mut steps: u64 = 0;
    while steps < max_steps
        invariant
            steps <= max_steps,
            total == fixed_time + dt,
            time + steps * interval == total,
        decreases max_steps - steps,
    {
        if time < interval {
            proof {
                lemma_steps_bound(steps as int, max_steps as int, interval as int);
                assert(total < (steps + 1) * interval);
                assert(total < max_steps * interval);
            }
            return FixedUpdates { steps, fixed_time: time, skipped: None };
        }
        time = time - interval;
        proof {
            assert((steps + 1) * interval == steps * interval + interval) by (nonlinear_arith);
        }
        steps = steps + 1;
    }
    FixedUpdates { steps, fixed_time: 0, skipped: Some(time) }
}

proof fn lemma_steps_bound(steps: int, max_steps: int, interval: int)
    requires
        0 <= steps < max_steps,
        0 <= interval,
    ensures
        (steps + 1) * interval <= max_steps * interval,
        (steps + 1) * interval == steps * interval + interval,
{
    assert((steps + 1) * interval <= max_steps * interval) by (nonlinear_arith)
        requires
            steps + 1 <= max_steps,
            0 <= interval,
    ;
    assert((steps + 1) * interval == steps * interval + interval) by (nonlinear_arith);
}

/// What the window's surface handed out when asked for its next texture.
#[derive(Clone, Copy, Debug)]
pub enum SurfaceStatus {
    Success,
    Suboptimal,
    Timeout,
    Occluded,
    Outdated,
    Lost,
    Validation,
}

/// What to do about a frame, given the surface's answer.
#[derive(Clone, Copy, Debug)]
pub enum SurfaceAction {
    /// Draw and present the frame; then reconfigure the surface when it
    /// was suboptimal.
    Render { resize_after: bool },
    /// Skip this frame.
    Skip,
    /// Reconfigure the surface and skip this frame.
    Resize,
    /// Report a validation error and skip this frame.
    ReportValidation,
}

/// What to do about a frame, given the surface's answer.
pub fn surface_action(status: SurfaceStatus) -> (r: SurfaceAction)
    ensures
        r == match status {
            SurfaceStatus::Success => SurfaceAction::Render { resize_after: false },
            SurfaceStatus::Suboptimal => SurfaceAction::Render { resize_after: true },
            SurfaceStatus::Timeout | SurfaceStatus::Occluded => SurfaceAction::Skip,
            SurfaceStatus::Outdated | SurfaceStatus::Lost => SurfaceAction::Resize,
            SurfaceStatus::Validation => SurfaceAction::ReportValidation,
        },
{
    match status {
        SurfaceStatus::Success => SurfaceAction::Render { resize_after: false },
        SurfaceStatus::Suboptimal => SurfaceAction::Render { resize_after: true },
        SurfaceStatus::Timeout | SurfaceStatus::Occluded => SurfaceAction::Skip,
        SurfaceStatus::Outdated | SurfaceStatus::Lost => SurfaceAction::Resize,
        SurfaceStatus::Validation => SurfaceAction::ReportValidation,
    }
}

/// A surface can be configured only with a non-empty size.
pub fn surface_configurable(width: u32, height: u32) -> (r: bool)
    ensures
        r == (width > 0 && height > 0),
{
    width > 0 && height > 0
}

/// The size the application is told about: the window's, but at least one
/// pixel each way (one by one when there is no window).
pub fn frame_size(window_size: Option<(u32, u32)>) -> (r: (u32, u32))
    ensures
        r == match window_size {
            Some((w, h)) => (
                if w > 1 {
                    w
                } else {
                    1u32
                },
                if h > 1 {
                    h
                } else {
                    1u32
                },
            ),
            None => (1u32, 1u32),
        },
{
    match window_size {
        Some((w, h)) => (
            if w > 1 {
                w
            } else {
                1
            },
            if h > 1 {
                h
            } else {
                1
            },
        ),
        None => (1, 1),
    }
}

} // verus!
