//! From the state of the controls to what the player asks for on a tick:
//! a step of the cursor, a swap, a forced lift. A control that is held
//! repeats, after a longer pause at first and a short one from then on.

use vstd::prelude::*;
use crate::cursor::CursorMove;
use crate::timer::Timer;

verus! {

/// Pause before a held direction repeats for the first time.
pub const FIRST_REINPUT_MS: u32 = 400;

/// Pause between two repeats of a held control.
pub const REINPUT_MS: u32 = 40;

/// The state of one control on a tick.
#[derive(Clone, Copy, Debug, PartialEq, Eq, Structural)]
pub struct KeyState {
    /// The control is down.
    pub pressed: bool,
    /// The control went down on this tick.
    pub just_pressed: bool,
    /// The control went up on this tick.
    pub just_released: bool,
}

/// The state of every control on a tick.
#[derive(Clone, Copy, Debug, PartialEq, Eq, Structural)]
pub struct Controls {
    pub up: KeyState,
    pub down: KeyState,
    pub left: KeyState,
    pub right: KeyState,
    pub swap: KeyState,
    pub lift: KeyState,
}

/// The step of the cursor asked for, and the timer of its repeats.
#[derive(Clone, Copy, Debug, PartialEq, Eq)]
pub struct MoveActions {
    pub cursor_movement: Option<CursorMove>,
    pub reinput_timer: Timer,
}

/// Whether a swap is asked for.
#[derive(Clone, Copy, Debug, PartialEq, Eq, Structural)]
pub struct SwapAction(pub bool);

/// Whether a forced lift is asked for, and the timer of its repeats.
#[derive(Clone, Copy, Debug, PartialEq, Eq, Structural)]
pub struct LiftAction {
    pub lift: bool,
    pub reinput_timer: Timer,
}

/// A step along one axis, and the timer after it.
pub struct AxisStep {
    pub step: i8,
    pub timer: Timer,
}

impl KeyState {
    /// A control at rest.
    pub open spec fn at_rest() -> KeyState {
        KeyState { pressed: false, just_pressed: false, just_released: false }
    }

    /// Whether the control is down or went up on this tick.
    pub open spec fn active(self) -> bool {
        self.just_released || self.pressed
    }

    /// A control at rest.
    pub fn released() -> (k: KeyState)
        ensures
            k == KeyState::at_rest(),
    {
        KeyState { pressed: false, just_pressed: false, just_released: false }
    }

    /// A control that went down on this tick.
    pub fn pressed_now() -> (k: KeyState)
        ensures
            k == (KeyState { pressed: true, just_pressed: true, just_released: false }),
    {
        KeyState { pressed: true, just_pressed: true, just_released: false }
    }
}

impl Controls {
    /// Every control at rest.
    pub fn none() -> (c: Controls)
        ensures
            c == (Controls {
                up: KeyState::at_rest(),
                down: KeyState::at_rest(),
                left: KeyState::at_rest(),
                right: KeyState::at_rest(),
                swap: KeyState::at_rest(),
                lift: KeyState::at_rest(),
            }),
    {
        let rest: KeyState = KeyState::released();
        Controls { up: rest, down: rest, left: rest, right: rest, swap: rest, lift: rest }
    }
}

/// The step along one axis. A direction that went down on this tick gives a
/// step at once, the `plus` one first, and starts the long pause. If no
/// direction went down and the pause has just run out, a held direction
/// gives a step and starts the short pause; `minus_repeats_first` tells
/// which of two held directions wins. Otherwise there is no step.
pub open spec fn axis_step(plus: KeyState, minus: KeyState, minus_repeats_first: bool, timer: Timer) -> AxisStep {
    if plus.just_pressed {
        AxisStep { step: 1i8, timer: Timer::started(FIRST_REINPUT_MS) }
    } else if minus.just_pressed {
        AxisStep { step: -1i8, timer: Timer::started(FIRST_REINPUT_MS) }
    } else if timer.just_finished && (plus.pressed || minus.pressed) {
        AxisStep {
            step: if minus_repeats_first {
                if minus.pressed {
                    -1i8
                } else {
                    1i8
                }
            } else {
                if plus.pressed {
                    1i8
                } else {
                    -1i8
                }
            },
            timer: Timer::started(REINPUT_MS),
        }
    } else {
        AxisStep { step: 0i8, timer }
    }
}

/// The step of the cursor asked for on a tick of `dt_ms`. While no direction
/// is down or has just gone up there is none. Otherwise the vertical axis is
/// worked out first, and the horizontal one with the timer that it leaves.
pub open spec fn spec_set_movement_actions(a: MoveActions, keys: Controls, dt_ms: u32) -> MoveActions {
    let timer = a.reinput_timer.ticked(dt_ms);
    if keys.up.active() || keys.left.active() || keys.down.active() || keys.right.active() {
        let vertical = axis_step(keys.up, keys.down, true, timer);
        let horizontal = axis_step(keys.right, keys.left, false, vertical.timer);
        MoveActions {
            cursor_movement: Some(CursorMove { dx: horizontal.step, dy: vertical.step }),
            reinput_timer: horizontal.timer,
        }
    } else {
        MoveActions { cursor_movement: None, reinput_timer: timer }
    }
}

/// Whether a forced lift is asked for on a tick of `dt_ms`: it is when the
/// control goes down and each time the short pause runs out while it is
/// held, it stays as it was between these, and it is not once the control is
/// up.
pub open spec fn spec_set_lift_action(a: LiftAction, keys: Controls, dt_ms: u32) -> LiftAction {
    let timer = a.reinput_timer.ticked(dt_ms);
    if keys.lift.pressed {
        if keys.lift.just_pressed || timer.just_finished {
            LiftAction { lift: true, reinput_timer: Timer::started(REINPUT_MS) }
        } else {
            LiftAction { lift: a.lift, reinput_timer: timer }
        }
    } else {
        LiftAction { lift: false, reinput_timer: timer }
    }
}

/// Works out the step along one axis.
pub fn step_axis(plus: KeyState, minus: KeyState, minus_repeats_first: bool, timer: Timer) -> (r: AxisStep)
    ensures
        r == axis_step(plus, minus, minus_repeats_first, timer),
{
    if plus.just_pressed {
        AxisStep { step: 1, timer: Timer::from_millis(FIRST_REINPUT_MS) }
    } else if minus.just_pressed {
        AxisStep { step: -1, timer: Timer::from_millis(FIRST_REINPUT_MS) }
    } else if timer.just_finished() && (plus.pressed || minus.pressed) {
        let step: i8 = if minus_repeats_first {
            if minus.pressed {
                -1
            } else {
                1
            }
        } else {
            if plus.pressed {
                1
            } else {
                -1
            }
        };
        AxisStep { step, timer: Timer::from_millis(REINPUT_MS) }
    } else {
        AxisStep { step: 0, timer }
    }
}

impl MoveActions {
    /// No step asked for, and a timer of no duration.
    pub fn new() -> (a: MoveActions)
        ensures
            a == (MoveActions { cursor_movement: None, reinput_timer: Timer::started(0) }),
    {
        MoveActions { cursor_movement: None, reinput_timer: Timer::from_millis(0) }
    }
}

impl LiftAction {
    /// No lift asked for, and a timer of no duration.
    pub fn new() -> (a: LiftAction)
        ensures
            a == (LiftAction { lift: false, reinput_timer: Timer::started(0) }),
    {
        LiftAction { lift: false, reinput_timer: Timer::from_millis(0) }
    }
}

impl Default for MoveActions {
    fn default() -> (a: MoveActions)
        ensures
            a == (MoveActions { cursor_movement: None, reinput_timer: Timer::started(0) }),
    {
        MoveActions::new()
    }
}

impl Default for SwapAction {
    fn default() -> (a: SwapAction)
        ensures
            a == SwapAction(false),
    {
        SwapAction(false)
    }
}

impl Default for LiftAction {
    fn default() -> (a: LiftAction)
        ensures
            a == (LiftAction { lift: false, reinput_timer: Timer::started(0) }),
    {
        LiftAction::new()
    }
}

/// Works out the step of the cursor that the directions ask for.
pub fn set_movement_actions(actions: &mut MoveActions, keys: &Controls, dt_ms: u32)
    ensures
        *final(actions) == spec_set_movement_actions(*old(actions), *keys, dt_ms),
{
    actions.reinput_timer.tick(dt_ms);
    if keys.up.just_released || keys.up.pressed || keys.left.just_released || keys.left.pressed
        || keys.down.just_released || keys.down.pressed || keys.right.just_released
        || keys.right.pressed {
        let vertical: AxisStep = step_axis(keys.up, keys.down, true, actions.reinput_timer);
        let horizontal: AxisStep = step_axis(keys.right, keys.left, false, vertical.timer);
        actions.cursor_movement = Some(CursorMove { dx: horizontal.step, dy: vertical.step });
        actions.reinput_timer = horizontal.timer;
    } else {
        actions.cursor_movement = None;
    }
}

/// Works out whether a swap is asked for: it is on the tick on which the
/// swap control goes down.
pub fn set_swap_action(actions: &mut SwapAction, keys: &Controls)
    ensures
        *final(actions) == SwapAction(keys.swap.just_pressed),
{
    actions.0 = keys.swap.just_pressed;
}

/// Works out whether a forced lift is asked for.
pub fn set_lift_action(actions: &mut LiftAction, keys: &Controls, dt_ms: u32)
    ensures
        *final(actions) == spec_set_lift_action(*old(actions), *keys, dt_ms),
{
    actions.reinput_timer.tick(dt_ms);
    if keys.lift.pressed {
        if keys.lift.just_pressed || actions.reinput_timer.just_finished() {
            actions.lift = true;
            actions.reinput_timer.set_duration(REINPUT_MS);
            actions.reinput_timer.reset();
        }
    } else {
        actions.lift = false;
    }
}

} // verus!
