//! A logical button: a set of keys, mouse buttons, controller buttons and controller axes, down
//! while any of them is down, with edge detection (pressed, released) and timing queries.

use vstd::prelude::*;

use crate::input::system::{
    ButtonState, InputSystem, MAX_CONTROLLERS, MAX_CONTROLLER_AXIS, MAX_CONTROLLER_BUTTONS,
    MAX_KEYBOARD_KEYS, MAX_MOUSE_BUTTONS,
};

verus! {

/// On which side of its threshold an axis counts as down.
#[derive(Copy, Clone, Debug, PartialEq, Eq, Structural)]
pub enum ControllerAxisDirection {
    GreaterThan,
    LesserThan,
}

/// A button of the controller in a given slot.
#[derive(Copy, Clone, Debug, PartialEq, Eq, Structural)]
pub struct ControllerButtonInput {
    pub controller_index: usize,
    pub button: usize,
}

/// An axis of the controller in a given slot, with the side of the threshold that counts as
/// down, and when it last crossed the threshold.
#[derive(Copy, Clone, Debug, PartialEq, Eq, Structural)]
pub struct ControllerAxisInput {
    pub controller_index: usize,
    pub axis: usize,
    pub direction: ControllerAxisDirection,
    pub last_update_value: bool,
    pub last_change_timestamp: u64,
}

/// A button that never changed and is up.
pub open spec fn up_state() -> ButtonState {
    ButtonState { timestamp: 0, down: false }
}

/// Whether any of the states is down.
pub open spec fn any_down(s: Seq<ButtonState>) -> bool {
    exists|i: int| 0 <= i < s.len() && (#[trigger] s[i]).down
}

/// The latest timestamp among the states that are `down` (or, for `down == false`, up), or 0.
pub open spec fn latest(s: Seq<ButtonState>, down: bool) -> u64
    decreases s.len(),
{
    if s.len() == 0 {
        0
    } else {
        let rest = latest(s.drop_last(), down);
        if s.last().down == down && s.last().timestamp > rest {
            s.last().timestamp
        } else {
            rest
        }
    }
}

/// What a controller button contributes: its state while its controller is connected.
pub open spec fn controller_button_state(input: InputSystem, b: ControllerButtonInput) -> ButtonState {
    if input.slots()[b.controller_index as int].is_connected_spec() {
        input.slots()[b.controller_index as int].buttons()[b.button as int]
    } else {
        up_state()
    }
}

/// A controller axis after an update in which it is past its threshold iff `down`: it records
/// the crossing at `timestamp`; with its controller gone it stays as it was.
pub open spec fn axis_after(input: InputSystem, a: ControllerAxisInput, down: bool, timestamp: u64) -> ControllerAxisInput {
    if input.slots()[a.controller_index as int].is_connected_spec() {
        ControllerAxisInput {
            controller_index: a.controller_index,
            axis: a.axis,
            direction: a.direction,
            last_update_value: down,
            last_change_timestamp: if down != a.last_update_value {
                timestamp
            } else {
                a.last_change_timestamp
            },
        }
    } else {
        a
    }
}

/// What a controller axis contributes to an update.
pub open spec fn axis_state_after(input: InputSystem, a: ControllerAxisInput, down: bool, timestamp: u64) -> ButtonState {
    if input.slots()[a.controller_index as int].is_connected_spec() {
        ButtonState { timestamp: axis_after(input, a, down, timestamp).last_change_timestamp, down }
    } else {
        up_state()
    }
}

/// Whether a sequence holds no value twice.
pub open spec fn distinct<A>(s: Seq<A>) -> bool {
    forall|i: int, j: int| 0 <= i < j < s.len() ==> s[i] != s[j]
}

/// A logical button.
pub struct Button {
    keys: Vec<usize>,
    mouse_buttons: Vec<usize>,
    controller_buttons: Vec<ControllerButtonInput>,
    controller_axes: Vec<ControllerAxisInput>,
    down: bool,
    pressed: bool,
    released: bool,
    last_state: bool,
    timestamp: u64,
}

impl Button {
    pub closed spec fn key_inputs(&self) -> Seq<usize> {
        self.keys@
    }

    pub closed spec fn mouse_inputs(&self) -> Seq<usize> {
        self.mouse_buttons@
    }

    pub closed spec fn button_inputs(&self) -> Seq<ControllerButtonInput> {
        self.controller_buttons@
    }

    pub closed spec fn axis_inputs(&self) -> Seq<ControllerAxisInput> {
        self.controller_axes@
    }

    pub closed spec fn is_down(&self) -> bool {
        self.down
    }

    pub closed spec fn is_pressed(&self) -> bool {
        self.pressed
    }

    pub closed spec fn is_released(&self) -> bool {
        self.released
    }

    /// The state seen at the last update, which edge detection compares against.
    pub closed spec fn last_state(&self) -> bool {
        self.last_state
    }

    /// When the button last went down or up.
    pub closed spec fn since(&self) -> u64 {
        self.timestamp
    }

    /// The button's invariant: each input names an existing key, button, axis and slot, no
    /// input occurs twice, and the state last seen is the state the button is in.
    pub open spec fn wf(&self) -> bool {
        &&& self.last_state() == self.is_down()
        &&& forall|i: int| 0 <= i < self.key_inputs().len() ==> #[trigger] self.key_inputs()[i] < MAX_KEYBOARD_KEYS
        &&& forall|i: int| 0 <= i < self.mouse_inputs().len() ==> #[trigger] self.mouse_inputs()[i] < MAX_MOUSE_BUTTONS
        &&& forall|i: int| 0 <= i < self.button_inputs().len() ==> {
            &&& (#[trigger] self.button_inputs()[i]).controller_index < MAX_CONTROLLERS
            &&& self.button_inputs()[i].button < MAX_CONTROLLER_BUTTONS
        }
        &&& forall|i: int| 0 <= i < self.axis_inputs().len() ==> {
            &&& (#[trigger] self.axis_inputs()[i]).controller_index < MAX_CONTROLLERS
            &&& self.axis_inputs()[i].axis < MAX_CONTROLLER_AXIS
        }
        &&& distinct(self.key_inputs())
        &&& distinct(self.mouse_inputs())
        &&& distinct(self.button_inputs())
        &&& forall|i: int, j: int| 0 <= i < j < self.axis_inputs().len() ==> !Self::same_axis(
            #[trigger] self.axis_inputs()[i], #[trigger] self.axis_inputs()[j])
    }

    /// Two axis inputs watch the same axis on the same side.
    pub open spec fn same_axis(a: ControllerAxisInput, b: ControllerAxisInput) -> bool {
        a.controller_index == b.controller_index && a.axis == b.axis && a.direction == b.direction
    }

    /// The states that an update with these axis readings combines, in order: keys, mouse
    /// buttons, controller buttons, controller axes.
    pub open spec fn contributions(&self, input: InputSystem, axis_down: Seq<bool>, timestamp: u64) -> Seq<ButtonState> {
        self.key_inputs().map_values(|k: usize| input.keys()[k as int])
            + self.mouse_inputs().map_values(|m: usize| input.mouse_buttons()[m as int])
            + self.button_inputs().map_values(|b: ControllerButtonInput| controller_button_state(input, b))
            + Seq::new(
                self.axis_inputs().len(),
                |i: int| axis_state_after(input, self.axis_inputs()[i], axis_down[i], timestamp),
            )
    }

    /// `after` is this button after an update at `timestamp`: the inputs stay, the axes record
    /// their crossings, and the button is down while any input is down. Going down it takes the
    /// latest press among its inputs as its timestamp, unless it was down already; going or
    /// staying up it takes the latest release. It is pressed (released) on the update whose
    /// timestamp it took, and only once per change.
    pub open spec fn updated(&self, after: Button, input: InputSystem, axis_down: Seq<bool>, timestamp: u64) -> bool {
        let c = self.contributions(input, axis_down, timestamp);
        &&& after.key_inputs() == self.key_inputs()
        &&& after.mouse_inputs() == self.mouse_inputs()
        &&& after.button_inputs() == self.button_inputs()
        &&& after.axis_inputs() == Seq::new(
            self.axis_inputs().len(),
            |i: int| axis_after(input, self.axis_inputs()[i], axis_down[i], timestamp),
        )
        &&& if any_down(c) {
            &&& after.since() == (if self.is_down() { self.since() } else { latest(c, true) })
            &&& after.is_down()
            &&& after.is_pressed() == (after.since() == timestamp && !self.last_state())
            &&& !after.is_released()
            &&& after.last_state()
        } else {
            &&& after.since() == latest(c, false)
            &&& !after.is_down()
            &&& !after.is_pressed()
            &&& after.is_released() == (after.since() == timestamp && self.last_state())
            &&& !after.last_state()
        }
    }

    /// An update presses a button only when it goes down, and releases it only when it goes up.
    pub proof fn lemma_press_on_change(&self, after: Button, input: InputSystem, axis_down: Seq<bool>, timestamp: u64)
        requires
            self.wf(),
            self.updated(after, input, axis_down, timestamp),
        ensures
            after.is_pressed() ==> !self.is_down() && after.is_down(),
            after.is_released() ==> self.is_down() && !after.is_down(),
            after.last_state() == after.is_down(),
    {
    }

    /// A button is pressed once and released once per change: two updates in a row never both
    /// press it, nor both release it.
    pub proof fn lemma_press_once(
        &self,
        mid: Button,
        after: Button,
        input1: InputSystem,
        axis_down1: Seq<bool>,
        timestamp1: u64,
        input2: InputSystem,
        axis_down2: Seq<bool>,
        timestamp2: u64,
    )
        requires
            self.wf(),
            mid.wf(),
            self.updated(mid, input1, axis_down1, timestamp1),
            mid.updated(after, input2, axis_down2, timestamp2),
        ensures
            !(mid.is_pressed() && after.is_pressed()),
            !(mid.is_released() && after.is_released()),
    {
        self.lemma_press_on_change(mid, input1, axis_down1, timestamp1);
        mid.lemma_press_on_change(after, input2, axis_down2, timestamp2);
    }

    /// What an update does to a button, input by input: the button is down exactly when one of
    /// its inputs is; while it stays down it keeps the time it went down, however many other
    /// inputs go down meanwhile; it is pressed only in the update that brings it down, at the
    /// time of its latest input down, and released only in the update that brings it up.
    pub proof fn lemma_update_laws(&self, after: Button, input: InputSystem, axis_down: Seq<bool>, timestamp: u64)
        requires
            self.wf(),
            self.updated(after, input, axis_down, timestamp),
        ensures
            after.is_down() == any_down(self.contributions(input, axis_down, timestamp)),
            self.is_down() && after.is_down() ==> after.since() == self.since(),
            !self.is_down() && after.is_down() ==> after.since() == latest(self.contributions(input, axis_down, timestamp), true)
                && after.is_pressed() == (after.since() == timestamp),
            self.is_down() && !after.is_down() ==> after.since() == latest(self.contributions(input, axis_down, timestamp), false)
                && after.is_released() == (after.since() == timestamp),
            self.is_down() == after.is_down() ==> !after.is_pressed() && !after.is_released(),
            after.key_inputs() == self.key_inputs(),
            after.mouse_inputs() == self.mouse_inputs(),
            after.button_inputs() == self.button_inputs(),
    {
    }

    /// A button with no input, up.
    pub fn new() -> (r: Self)
        ensures
            r.wf(),
            r.key_inputs() == Seq::<usize>::empty(),
            r.mouse_inputs() == Seq::<usize>::empty(),
            r.button_inputs() == Seq::<ControllerButtonInput>::empty(),
            r.axis_inputs() == Seq::<ControllerAxisInput>::empty(),
            !r.is_down(),
            !r.is_pressed(),
            !r.is_released(),
            !r.last_state(),
            r.since() == 0,
    {
        Button {
            keys: Vec::new(),
            mouse_buttons: Vec::new(),
            controller_buttons: Vec::new(),
            controller_axes: Vec::new(),
            down: false,
            pressed: false,
            released: false,
            last_state: false,
            timestamp: 0,
        }
    }

    /// The key codes, in the order they were added.
    pub fn keys(&self) -> (r: &Vec<usize>)
        ensures
            r@ == self.key_inputs(),
    {
        &self.keys
    }

    /// The mouse buttons, in the order they were added.
    pub fn mouse_buttons(&self) -> (r: &Vec<usize>)
        ensures
            r@ == self.mouse_inputs(),
    {
        &self.mouse_buttons
    }

    /// The controller buttons, in the order they were added.
    pub fn controller_buttons(&self) -> (r: &Vec<ControllerButtonInput>)
        ensures
            r@ == self.button_inputs(),
    {
        &self.controller_buttons
    }

    /// The controller axes, in the order they were added.
    pub fn controller_axes(&self) -> (r: &Vec<ControllerAxisInput>)
        ensures
            r@ == self.axis_inputs(),
    {
        &self.controller_axes
    }

    /// Adds a key. `requires` rules out a key already there.
    pub fn add_key(&mut self, code: usize)
        requires
            old(self).wf(),
            code < MAX_KEYBOARD_KEYS,
            !old(self).key_inputs().contains(code),
        ensures
            final(self).wf(),
            final(self).key_inputs() == old(self).key_inputs().push(code),
            final(self).mouse_inputs() == old(self).mouse_inputs(),
            final(self).button_inputs() == old(self).button_inputs(),
            final(self).axis_inputs() == old(self).axis_inputs(),
            final(self).is_down() == old(self).is_down(),
            final(self).is_pressed() == old(self).is_pressed(),
            final(self).is_released() == old(self).is_released(),
            final(self).last_state() == old(self).last_state(),
            final(self).since() == old(self).since(),
    {
        self.keys.push(code);
        proof {
            assert forall|i: int, j: int| 0 <= i < j < self.keys@.len() implies self.keys@[i] != self.keys@[j] by {
                if j == self.keys@.len() - 1 {
                    assert(old(self).key_inputs()[i] == self.keys@[i]);
                }
            }
        }
    }

    /// Removes a key, where it is there.
    pub fn rem_key(&mut self, code: usize)
        requires
            old(self).wf(),
        ensures
            final(self).wf(),
            final(self).key_inputs() == old(self).key_inputs().filter(other_than(code)),
            final(self).mouse_inputs() == old(self).mouse_inputs(),
            final(self).button_inputs() == old(self).button_inputs(),
            final(self).axis_inputs() == old(self).axis_inputs(),
            final(self).is_down() == old(self).is_down(),
            final(self).is_pressed() == old(self).is_pressed(),
            final(self).is_released() == old(self).is_released(),
            final(self).last_state() == old(self).last_state(),
            final(self).since() == old(self).since(),
    {
        let kept = retain_other(&self.keys, code);
        self.keys = kept;
    }

    /// Adds a mouse button. `requires` rules out a button already there.
    pub fn add_mouse_button(&mut self, button: usize)
        requires
            old(self).wf(),
            button < MAX_MOUSE_BUTTONS,
            !old(self).mouse_inputs().contains(button),
        ensures
            final(self).wf(),
            final(self).mouse_inputs() == old(self).mouse_inputs().push(button),
            final(self).key_inputs() == old(self).key_inputs(),
            final(self).button_inputs() == old(self).button_inputs(),
            final(self).axis_inputs() == old(self).axis_inputs(),
            final(self).is_down() == old(self).is_down(),
            final(self).is_pressed() == old(self).is_pressed(),
            final(self).is_released() == old(self).is_released(),
            final(self).last_state() == old(self).last_state(),
            final(self).since() == old(self).since(),
    {
        self.mouse_buttons.push(button);
        proof {
            assert forall|i: int, j: int| 0 <= i < j < self.mouse_buttons@.len() implies self.mouse_buttons@[i] != self.mouse_buttons@[j] by {
                if j == self.mouse_buttons@.len() - 1 {
                    assert(old(self).mouse_inputs()[i] == self.mouse_buttons@[i]);
                }
            }
        }
    }

    /// Removes a mouse button, where it is there.
    pub fn rem_mouse_button(&mut self, button: usize)
        requires
            old(self).wf(),
        ensures
            final(self).wf(),
            final(self).mouse_inputs() == old(self).mouse_inputs().filter(other_than(button)),
            final(self).key_inputs() == old(self).key_inputs(),
            final(self).button_inputs() == old(self).button_inputs(),
            final(self).axis_inputs() == old(self).axis_inputs(),
            final(self).is_down() == old(self).is_down(),
            final(self).is_pressed() == old(self).is_pressed(),
            final(self).is_released() == old(self).is_released(),
            final(self).last_state() == old(self).last_state(),
            final(self).since() == old(self).since(),
    {
        let kept = retain_other(&self.mouse_buttons, button);
        self.mouse_buttons = kept;
    }

    /// Adds a button of the controller in slot `controller_index`. `requires` rules out a
    /// pair already there.
    pub fn add_controller_button(&mut self, controller_index: usize, button: usize)
        requires
            old(self).wf(),
            controller_index < MAX_CONTROLLERS,
            button < MAX_CONTROLLER_BUTTONS,
            !old(self).button_inputs().contains(ControllerButtonInput { controller_index, button }),
        ensures
            final(self).wf(),
            final(self).button_inputs() == old(self).button_inputs().push(ControllerButtonInput { controller_index, button }),
            final(self).key_inputs() == old(self).key_inputs(),
            final(self).mouse_inputs() == old(self).mouse_inputs(),
            final(self).axis_inputs() == old(self).axis_inputs(),
            final(self).is_down() == old(self).is_down(),
            final(self).is_pressed() == old(self).is_pressed(),
            final(self).is_released() == old(self).is_released(),
            final(self).last_state() == old(self).last_state(),
            final(self).since() == old(self).since(),
    {
        self.controller_buttons.push(ControllerButtonInput { controller_index, button });
        proof {
            assert forall|i: int, j: int| 0 <= i < j < self.controller_buttons@.len() implies self.controller_buttons@[i] != self.controller_buttons@[j] by {
                if j == self.controller_buttons@.len() - 1 {
                    assert(old(self).button_inputs()[i] == self.controller_buttons@[i]);
                }
            }
        }
    }

    /// Removes a button of a controller, where it is there.
    pub fn rem_controller_button(&mut self, controller_index: usize, button: usize)
        requires
            old(self).wf(),
        ensures
            final(self).wf(),
            final(self).button_inputs() == old(self).button_inputs().filter(
                |b: ControllerButtonInput| b.controller_index != controller_index || b.button != button,
            ),
            final(self).key_inputs() == old(self).key_inputs(),
            final(self).mouse_inputs() == old(self).mouse_inputs(),
            final(self).axis_inputs() == old(self).axis_inputs(),
            final(self).is_down() == old(self).is_down(),
            final(self).is_pressed() == old(self).is_pressed(),
            final(self).is_released() == old(self).is_released(),
            final(self).last_state() == old(self).last_state(),
            final(self).since() == old(self).since(),
    {
        let kept = retain_other_buttons(&self.controller_buttons, controller_index, button);
        self.controller_buttons = kept;
    }

    /// Adds an axis of the controller in slot `controller_index`, down on the side `direction`
    /// of its threshold. `requires` rules out an axis already there on that side.
    pub fn add_controller_axis(&mut self, controller_index: usize, axis: usize, direction: ControllerAxisDirection)
        requires
            old(self).wf(),
            controller_index < MAX_CONTROLLERS,
            axis < MAX_CONTROLLER_AXIS,
            forall|i: int| 0 <= i < old(self).axis_inputs().len() ==> !(#[trigger] old(self).axis_inputs()[i].controller_index
                == controller_index && old(self).axis_inputs()[i].axis == axis && old(self).axis_inputs()[i].direction == direction),
        ensures
            final(self).wf(),
            final(self).axis_inputs() == old(self).axis_inputs().push(ControllerAxisInput {
                controller_index,
                axis,
                direction,
                last_update_value: false,
                last_change_timestamp: 0,
            }),
            final(self).key_inputs() == old(self).key_inputs(),
            final(self).mouse_inputs() == old(self).mouse_inputs(),
            final(self).button_inputs() == old(self).button_inputs(),
            final(self).is_down() == old(self).is_down(),
            final(self).is_pressed() == old(self).is_pressed(),
            final(self).is_released() == old(self).is_released(),
            final(self).last_state() == old(self).last_state(),
            final(self).since() == old(self).since(),
    {
        self.controller_axes.push(ControllerAxisInput {
            controller_index,
            axis,
            direction,
            last_update_value: false,
            last_change_timestamp: 0,
        });
        proof {
            assert forall|i: int, j: int| 0 <= i < j < self.controller_axes@.len() implies !Self::same_axis(
                #[trigger] self.controller_axes@[i], #[trigger] self.controller_axes@[j]) by {
                if j == self.controller_axes@.len() - 1 {
                    assert(old(self).axis_inputs()[i] == self.controller_axes@[i]);
                }
            }
        }
    }

    /// Removes an axis of a controller, on both sides.
    pub fn rem_controller_axis(&mut self, controller_index: usize, axis: usize)
        requires
            old(self).wf(),
        ensures
            final(self).wf(),
            final(self).axis_inputs() == old(self).axis_inputs().filter(
                |a: ControllerAxisInput| a.controller_index != controller_index || a.axis != axis,
            ),
            final(self).key_inputs() == old(self).key_inputs(),
            final(self).mouse_inputs() == old(self).mouse_inputs(),
            final(self).button_inputs() == old(self).button_inputs(),
            final(self).is_down() == old(self).is_down(),
            final(self).is_pressed() == old(self).is_pressed(),
            final(self).is_released() == old(self).is_released(),
            final(self).last_state() == old(self).last_state(),
            final(self).since() == old(self).since(),
    {
        let kept = retain_other_axes(&self.controller_axes, controller_index, axis);
        self.controller_axes = kept;
    }

    /// Combines the states of the inputs for an update at `timestamp`: whether any is down, the
    /// latest press, the latest release, and the axes as the update leaves them.
    fn summarize(&self, input: &InputSystem, timestamp: u64, axis_down: &[bool]) -> (r: (bool, u64, u64, Vec<ControllerAxisInput>))
        requires
            self.wf(),
            input.wf(),
            axis_down@.len() == self.axis_inputs().len(),
        ensures
            r.0 == any_down(self.contributions(*input, axis_down@, timestamp)),
            r.1 == latest(self.contributions(*input, axis_down@, timestamp), true),
            r.2 == latest(self.contributions(*input, axis_down@, timestamp), false),
            r.3@ == Seq::new(
                self.axis_inputs().len(),
                |i: int| axis_after(*input, self.axis_inputs()[i], axis_down@[i], timestamp),
            ),
    {
        let ghost c = self.contributions(*input, axis_down@, timestamp);
        let ghost kn = self.keys@.len() as int;
        let ghost mn = self.mouse_buttons@.len() as int;
        let ghost cn = self.controller_buttons@.len() as int;
        let mut acc: (bool, u64, u64) = (false, 0, 0);
        proof {
            assert(c.take(0) =~= Seq::<ButtonState>::empty());
        }
        let mut i: usize = 0;
        while i < self.keys.len()
            invariant
                self.wf(),
                input.wf(),
                c == self.contributions(*input, axis_down@, timestamp),
                kn == self.keys@.len(),
                i <= kn,
                acc == summary(c.take(i as int)),
            decreases kn - i,
        {
            let st = input.key_state(self.keys[i]);
            proof {
                assert(c[i as int] == st);
                lemma_summary_step(c, i as int);
            }
            acc = fold_state(acc, st);
            i = i + 1;
        }
        let mut j: usize = 0;
        while j < self.mouse_buttons.len()
            invariant
                self.wf(),
                input.wf(),
                c == self.contributions(*input, axis_down@, timestamp),
                kn == self.keys@.len(),
                mn == self.mouse_buttons@.len(),
                j <= mn,
                acc == summary(c.take(kn + j)),
            decreases mn - j,
        {
            let st = input.mouse_button_state(self.mouse_buttons[j]);
            proof {
                assert(c[kn + j] == st);
                lemma_summary_step(c, kn + j);
            }
            acc = fold_state(acc, st);
            j = j + 1;
        }
        let mut k: usize = 0;
        while k < self.controller_buttons.len()
            invariant
                self.wf(),
                input.wf(),
                c == self.contributions(*input, axis_down@, timestamp),
                kn == self.keys@.len(),
                mn == self.mouse_buttons@.len(),
                cn == self.controller_buttons@.len(),
                k <= cn,
                acc == summary(c.take(kn + mn + k)),
            decreases cn - k,
        {
            let b = self.controller_buttons[k];
            let st = match input.controller_state(b.controller_index) {
                Some(controller) => controller.button_state(b.button),
                None => ButtonState { timestamp: 0, down: false },
            };
            proof {
                assert(b == self.button_inputs()[k as int]);
                assert(c[kn + mn + k] == st);
                lemma_summary_step(c, kn + mn + k);
            }
            acc = fold_state(acc, st);
            k = k + 1;
        }
        let mut axes: Vec<ControllerAxisInput> = Vec::new();
        let mut l: usize = 0;
        while l < self.controller_axes.len()
            invariant
                self.wf(),
                input.wf(),
                axis_down@.len() == self.axis_inputs().len(),
                c == self.contributions(*input, axis_down@, timestamp),
                kn == self.keys@.len(),
                mn == self.mouse_buttons@.len(),
                cn == self.controller_buttons@.len(),
                l <= self.controller_axes@.len(),
                acc == summary(c.take(kn + mn + cn + l)),
                axes@.len() == l,
                forall|m: int| 0 <= m < l ==> #[trigger] axes@[m] == axis_after(*input, self.axis_inputs()[m], axis_down@[m], timestamp),
            decreases self.controller_axes@.len() - l,
        {
            let a = self.controller_axes[l];
            let down = axis_down[l];
            let (after, st) = match input.controller_state(a.controller_index) {
                Some(_) => {
                    let since = if down != a.last_update_value {
                        timestamp
                    } else {
                        a.last_change_timestamp
                    };
                    (
                        ControllerAxisInput {
                            controller_index: a.controller_index,
                            axis: a.axis,
                            direction: a.direction,
                            last_update_value: down,
                            last_change_timestamp: since,
                        },
                        ButtonState { timestamp: since, down },
                    )
                },
                None => (a, ButtonState { timestamp: 0, down: false }),
            };
            proof {
                assert(a == self.axis_inputs()[l as int]);
                assert(c[kn + mn + cn + l] == st);
                lemma_summary_step(c, kn + mn + cn + l);
            }
            acc = fold_state(acc, st);
            axes.push(after);
            l = l + 1;
        }
        proof {
            assert(c.take(c.len() as int) =~= c);
            assert(axes@ =~= Seq::new(
                self.axis_inputs().len(),
                |i: int| axis_after(*input, self.axis_inputs()[i], axis_down@[i], timestamp),
            ));
        }
        (acc.0, acc.1, acc.2, axes)
    }

    /// Updates the button from the input devices at `timestamp`. `axis_down` tells, for each
    /// controller axis of the button in order, whether its reading is past its threshold.
    pub fn update(&mut self, input: &InputSystem, timestamp: u64, axis_down: &[bool])
        requires
            old(self).wf(),
            input.wf(),
            axis_down@.len() == old(self).axis_inputs().len(),
        ensures
            final(self).wf(),
            old(self).updated(*final(self), *input, axis_down@, timestamp),
            final(self).is_down() == any_down(old(self).contributions(*input, axis_down@, timestamp)),
            old(self).is_down() && final(self).is_down() ==> final(self).since() == old(self).since(),
            old(self).is_down() == final(self).is_down() ==> !final(self).is_pressed() && !final(self).is_released(),
    {
        let (any, last_pressed, last_released, axes) = self.summarize(input, timestamp, axis_down);
        let ghost before = self.controller_axes@;
        self.controller_axes = axes;
        if any {
            if !self.down {
                self.timestamp = last_pressed;
                self.down = true;
            }
            self.pressed = self.timestamp == timestamp && !self.last_state;
            self.released = false;
            self.last_state = true;
        } else {
            self.timestamp = last_released;
            self.down = false;
            self.pressed = false;
            self.released = self.timestamp == timestamp && self.last_state;
            self.last_state = false;
        }
        proof {
            assert forall|i: int| 0 <= i < self.controller_axes@.len() implies {
                &&& (#[trigger] self.controller_axes@[i]).controller_index == before[i].controller_index
                &&& self.controller_axes@[i].axis == before[i].axis
                &&& self.controller_axes@[i].direction == before[i].direction
            } by {}
        }
    }

    /// Whether the button is down.
    pub fn down(&self) -> (r: bool)
        ensures
            r == self.is_down(),
    {
        self.down
    }

    /// Whether the button went down on the last update.
    pub fn pressed(&self) -> (r: bool)
        ensures
            r == self.is_pressed(),
    {
        self.pressed
    }

    /// Whether the button went up on the last update.
    pub fn released(&self) -> (r: bool)
        ensures
            r == self.is_released(),
    {
        self.released
    }

    /// Whether the button has been down for at least `duration` at `timestamp`; `requires`
    /// rules out a down button with `timestamp` before its press.
    pub fn pressed_for(&self, duration: u64, timestamp: u64) -> (r: bool)
        requires
            self.is_down() ==> self.since() <= timestamp,
        ensures
            r == (self.is_down() && timestamp - self.since() >= duration),
    {
        self.down && timestamp - self.timestamp >= duration
    }

    /// Whether the button has been up for at least `duration` at `timestamp`; `requires`
    /// rules out an up button with `timestamp` before its release.
    pub fn released_for(&self, duration: u64, timestamp: u64) -> (r: bool)
        requires
            !self.is_down() ==> self.since() <= timestamp,
        ensures
            r == (!self.is_down() && timestamp - self.since() >= duration),
    {
        !self.down && timestamp - self.timestamp >= duration
    }

    /// Whether the repeat arithmetic stays clear of overflow and division by zero: the sums
    /// fit in a `u64`, and the interval is positive once repeats can start.
    pub open spec fn repeat_in_range(&self, repeat_delay: u64, repeat_interval: u64, game_time: u64, frame_duration: u64) -> bool {
        self.is_down() && !self.is_pressed() ==> {
            &&& frame_duration + self.since() + repeat_delay <= u64::MAX
            &&& game_time >= self.since() + repeat_delay ==> repeat_interval > 0
            &&& press_count(game_time as int, self.since(), repeat_delay, repeat_interval) <= u64::MAX
        }
    }

    /// Whether a held button fires this frame: on its press, then after `repeat_delay` and every
    /// `repeat_interval` after that, at most once per frame of length `frame_duration` ending at
    /// `game_time`.
    pub fn pressed_repeat_with_delay(&self, repeat_delay: u64, repeat_interval: u64, game_time: u64, frame_duration: u64) -> (r: bool)
        requires
            self.repeat_in_range(repeat_delay, repeat_interval, game_time, frame_duration),
        ensures
            r == (self.is_down() && (self.is_pressed() || press_count(game_time - frame_duration, self.since(), repeat_delay, repeat_interval)
                < press_count(game_time as int, self.since(), repeat_delay, repeat_interval))),
    {
        if !self.down {
            return false;
        }
        if self.pressed {
            return true;
        }
        let prev_press_count: u64;
        if game_time < frame_duration + self.timestamp + repeat_delay {
            prev_press_count = 0;
        } else {
            let total_time = game_time - frame_duration - self.timestamp - repeat_delay;
            proof {
                let whole = game_time - self.timestamp - repeat_delay;
                assert(total_time as int / repeat_interval as int <= whole / repeat_interval as int) by (nonlinear_arith)
                    requires
                        0 <= total_time <= whole,
                        repeat_interval > 0,
                ;
            }
            prev_press_count = 1 + total_time / repeat_interval;
        }
        let curr_press_count: u64;
        if game_time < self.timestamp + repeat_delay {
            curr_press_count = 0;
        } else {
            curr_press_count = 1 + (game_time - self.timestamp - repeat_delay) / repeat_interval;
        }
        prev_press_count < curr_press_count
    }

    /// `pressed_repeat_with_delay` with the first repeat one interval after the press.
    pub fn pressed_repeat(&self, repeat_interval: u64, game_time: u64, frame_duration: u64) -> (r: bool)
        requires
            self.repeat_in_range(repeat_interval, repeat_interval, game_time, frame_duration),
        ensures
            r == (self.is_down() && (self.is_pressed() || press_count(game_time - frame_duration, self.since(), repeat_interval, repeat_interval)
                < press_count(game_time as int, self.since(), repeat_interval, repeat_interval))),
    {
        self.pressed_repeat_with_delay(repeat_interval, repeat_interval, game_time, frame_duration)
    }
}

/// How many times a button down since `since` has fired by time `t`: once after `delay`, then
/// once every `interval`.
pub open spec fn press_count(t: int, since: u64, delay: u64, interval: u64) -> int {
    if t < since + delay {
        0
    } else {
        1 + (t - since - delay) / (interval as int)
    }
}

/// Whether any state is down, the latest press, and the latest release.
pub open spec fn summary(s: Seq<ButtonState>) -> (bool, u64, u64) {
    (any_down(s), latest(s, true), latest(s, false))
}

/// Folds one more state into a summary.
fn fold_state(acc: (bool, u64, u64), st: ButtonState) -> (r: (bool, u64, u64))
    ensures
        r.0 == (acc.0 || st.down),
        r.1 == (if st.down && st.timestamp > acc.1 { st.timestamp } else { acc.1 }),
        r.2 == (if !st.down && st.timestamp > acc.2 { st.timestamp } else { acc.2 }),
{
    let pressed = if st.down && st.timestamp > acc.1 { st.timestamp } else { acc.1 };
    let released = if !st.down && st.timestamp > acc.2 { st.timestamp } else { acc.2 };
    (acc.0 || st.down, pressed, released)
}

/// The summary of one more state.
proof fn lemma_summary_step(s: Seq<ButtonState>, n: int)
    requires
        0 <= n < s.len(),
    ensures
        summary(s.take(n + 1)) == ({
            let acc = summary(s.take(n));
            (
                acc.0 || s[n].down,
                if s[n].down && s[n].timestamp > acc.1 { s[n].timestamp } else { acc.1 },
                if !s[n].down && s[n].timestamp > acc.2 { s[n].timestamp } else { acc.2 },
            )
        }),
{
    let t = s.take(n + 1);
    assert(t.drop_last() =~= s.take(n));
    assert(t.last() == s[n]);
    if s[n].down {
        assert(t[n] == s[n]);
    }
    if any_down(t) && !s[n].down {
        let i = choose|i: int| 0 <= i < t.len() && (#[trigger] t[i]).down;
        assert(s.take(n)[i] == t[i]);
    }
    if any_down(s.take(n)) {
        let i = choose|i: int| 0 <= i < n && (#[trigger] s.take(n)[i]).down;
        assert(t[i] == s.take(n)[i]);
    }
}

/// The controller buttons other than `button` of slot `controller_index`, in order.
fn retain_other_buttons(v: &Vec<ControllerButtonInput>, controller_index: usize, button: usize) -> (r: Vec<ControllerButtonInput>)
    ensures
        r@ == v@.filter(|b: ControllerButtonInput| b.controller_index != controller_index || b.button != button),
        distinct(v@) ==> distinct(r@),
        forall|i: int| 0 <= i < r@.len() ==> v@.contains(#[trigger] r@[i]),
{
    let ghost keep = |b: ControllerButtonInput| b.controller_index != controller_index || b.button != button;
    let mut r: Vec<ControllerButtonInput> = Vec::new();
    proof {
        reveal(Seq::filter);
    }
    let mut i: usize = 0;
    while i < v.len()
        invariant
            keep == (|b: ControllerButtonInput| b.controller_index != controller_index || b.button != button),
            i <= v@.len(),
            r@ == v@.take(i as int).filter(keep),
            distinct(v@) ==> distinct(r@),
            forall|j: int| 0 <= j < r@.len() ==> v@.take(i as int).contains(#[trigger] r@[j]),
        decreases v@.len() - i,
    {
        proof {
            assert(v@.take(i as int + 1).drop_last() =~= v@.take(i as int));
            assert(v@.take(i as int + 1).last() == v@[i as int]);
            reveal(Seq::filter);
        }
        let b = v[i];
        if b.controller_index != controller_index || b.button != button {
            proof {
                if distinct(v@) {
                    assert forall|j: int| 0 <= j < r@.len() implies r@[j] != v@[i as int] by {
                        let k = choose|k: int| 0 <= k < i && v@.take(i as int)[k] == r@[j];
                        assert(v@[k] == r@[j]);
                    }
                }
            }
            r.push(b);
        }
        proof {
            assert(r@ == v@.take(i as int + 1).filter(keep));
            assert forall|j: int| 0 <= j < r@.len() implies v@.take(i as int + 1).contains(#[trigger] r@[j]) by {
                if j < r@.len() - 1 || !keep(v@[i as int]) {
                    let k = choose|k: int| 0 <= k < i && v@.take(i as int)[k] == r@[j];
                    assert(v@.take(i as int + 1)[k] == r@[j]);
                } else {
                    assert(v@.take(i as int + 1)[i as int] == r@[j]);
                }
            }
        }
        i = i + 1;
    }
    proof {
        assert(v@.take(v@.len() as int) =~= v@);
    }
    r
}

/// The controller axes other than `axis` of slot `controller_index`, in order.
fn retain_other_axes(v: &Vec<ControllerAxisInput>, controller_index: usize, axis: usize) -> (r: Vec<ControllerAxisInput>)
    requires
        forall|i: int, j: int| 0 <= i < j < v@.len() ==> !Button::same_axis(#[trigger] v@[i], #[trigger] v@[j]),
    ensures
        r@ == v@.filter(|a: ControllerAxisInput| a.controller_index != controller_index || a.axis != axis),
        forall|i: int| 0 <= i < r@.len() ==> exists|k: int| 0 <= k < v@.len() && v@[k] == #[trigger] r@[i],
        forall|i: int, j: int| 0 <= i < j < r@.len() ==> !Button::same_axis(#[trigger] r@[i], #[trigger] r@[j]),
{
    let ghost keep = |a: ControllerAxisInput| a.controller_index != controller_index || a.axis != axis;
    let ghost pos: Seq<int> = Seq::empty();
    let mut r: Vec<ControllerAxisInput> = Vec::new();
    proof {
        reveal(Seq::filter);
    }
    let mut i: usize = 0;
    while i < v.len()
        invariant
            keep == (|a: ControllerAxisInput| a.controller_index != controller_index || a.axis != axis),
            i <= v@.len(),
            r@ == v@.take(i as int).filter(keep),
            pos.len() == r@.len(),
            forall|j: int| 0 <= j < r@.len() ==> 0 <= #[trigger] pos[j] < i && v@[pos[j]] == r@[j],
            forall|j1: int, j2: int| 0 <= j1 < j2 < r@.len() ==> #[trigger] pos[j1] < #[trigger] pos[j2],
        decreases v@.len() - i,
    {
        proof {
            assert(v@.take(i as int + 1).drop_last() =~= v@.take(i as int));
            assert(v@.take(i as int + 1).last() == v@[i as int]);
            reveal(Seq::filter);
        }
        let a = v[i];
        if a.controller_index != controller_index || a.axis != axis {
            r.push(a);
            proof {
                pos = pos.push(i as int);
            }
        }
        proof {
            assert(r@ == v@.take(i as int + 1).filter(keep));
        }
        i = i + 1;
    }
    proof {
        assert(v@.take(v@.len() as int) =~= v@);
        assert forall|j: int| 0 <= j < r@.len() implies exists|k: int| 0 <= k < v@.len() && v@[k] == #[trigger] r@[j] by {
            assert(v@[pos[j]] == r@[j]);
        }
        assert forall|j1: int, j2: int| 0 <= j1 < j2 < r@.len() implies !Button::same_axis(#[trigger] r@[j1], #[trigger] r@[j2]) by {
            assert(v@[pos[j1]] == r@[j1] && v@[pos[j2]] == r@[j2]);
            assert(pos[j1] < pos[j2]);
        }
    }
    r
}

/// The values other than `x`.
pub open spec fn other_than(x: usize) -> spec_fn(usize) -> bool {
    |k: usize| k != x
}

/// The values of `v` other than `x`, in order.
fn retain_other(v: &Vec<usize>, x: usize) -> (r: Vec<usize>)
    ensures
        r@ == v@.filter(other_than(x)),
        distinct(v@) ==> distinct(r@),
        forall|i: int| 0 <= i < r@.len() ==> v@.contains(#[trigger] r@[i]),
{
    let mut r: Vec<usize> = Vec::new();
    proof {
        reveal(Seq::filter);
    }
    let mut i: usize = 0;
    while i < v.len()
        invariant
            i <= v@.len(),
            r@ == v@.take(i as int).filter(other_than(x)),
            distinct(v@) ==> distinct(r@),
            forall|j: int| 0 <= j < r@.len() ==> v@.take(i as int).contains(#[trigger] r@[j]),
        decreases v@.len() - i,
    {
        proof {
            assert(v@.take(i as int + 1).drop_last() =~= v@.take(i as int));
            assert(v@.take(i as int + 1).last() == v@[i as int]);
            reveal(Seq::filter);
            assert(v@.take(i as int + 1).filter(other_than(x)) == if other_than(x)(v@[i as int]) {
                v@.take(i as int).filter(other_than(x)).push(v@[i as int])
            } else {
                v@.take(i as int).filter(other_than(x))
            });
        }
        if v[i] != x {
            proof {
                if distinct(v@) {
                    assert forall|j: int| 0 <= j < r@.len() implies r@[j] != v@[i as int] by {
                        let k = choose|k: int| 0 <= k < i && v@.take(i as int)[k] == r@[j];
                        assert(v@[k] == r@[j]);
                    }
                }
            }
            r.push(v[i]);
        }
        proof {
            assert(r@ == v@.take(i as int + 1).filter(other_than(x)));
            assert forall|j: int| 0 <= j < r@.len() implies v@.take(i as int + 1).contains(#[trigger] r@[j]) by {
                if j < r@.len() - 1 || v@[i as int] == x {
                    let k = choose|k: int| 0 <= k < i && v@.take(i as int)[k] == r@[j];
                    assert(v@.take(i as int + 1)[k] == r@[j]);
                } else {
                    assert(v@.take(i as int + 1)[i as int] == r@[j]);
                }
            }
        }
        i = i + 1;
    }
    proof {
        assert(v@.take(v@.len() as int) =~= v@);
    }
    r
}

} // verus!
