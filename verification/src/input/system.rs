//! The state of the input devices: keys, mouse buttons and controllers, each button down or up
//! since some timestamp.

use std::collections::BTreeMap;
use vstd::prelude::*;

verus! {

broadcast use vstd::std_specs::btree::group_btree_axioms;

pub const MAX_KEYBOARD_KEYS: usize = 512;

pub const MAX_MOUSE_BUTTONS: usize = 16;

pub const MAX_CONTROLLER_BUTTONS: usize = 16;

pub const MAX_CONTROLLER_AXIS: usize = 16;

pub const MAX_CONTROLLERS: usize = 16;

/// A button, and when it last changed.
#[derive(Copy, Clone, Debug, Default, PartialEq, Eq, Structural)]
pub struct ButtonState {
    pub timestamp: u64,
    pub down: bool,
}

impl ButtonState {
    /// An up button that never changed.
    pub fn new() -> (r: Self)
        ensures
            r == (ButtonState { timestamp: 0, down: false }),
    {
        ButtonState { timestamp: 0, down: false }
    }

    /// The button goes down. `requires` asks that it be up.
    pub fn press(&mut self, timestamp: u64)
        requires
            !old(self).down,
        ensures
            *final(self) == (ButtonState { timestamp, down: true }),
    {
        self.timestamp = timestamp;
        self.down = true;
    }

    /// The button goes up. `requires` asks that it be down.
    pub fn release(&mut self, timestamp: u64)
        requires
            old(self).down,
        ensures
            *final(self) == (ButtonState { timestamp, down: false }),
    {
        self.timestamp = timestamp;
        self.down = false;
    }
}

/// An axis of a controller, by its raw reading, and when it last changed.
#[derive(Copy, Clone, Debug, Default, PartialEq, Eq, Structural)]
pub struct AxisState {
    pub timestamp: u64,
    pub value: i16,
}

/// A table of axes indexed by code, all at rest.
fn axis_table(n: usize) -> (r: Vec<AxisState>)
    ensures
        r@.len() == n,
        forall|i: int| 0 <= i < n ==> #[trigger] r@[i] == (AxisState { timestamp: 0, value: 0 }),
{
    let mut v: Vec<AxisState> = Vec::new();
    let mut i: usize = 0;
    while i < n
        invariant
            i <= n,
            v@.len() == i,
            forall|j: int| 0 <= j < i ==> #[trigger] v@[j] == (AxisState { timestamp: 0, value: 0 }),
        decreases n - i,
    {
        v.push(AxisState { timestamp: 0, value: 0 });
        i = i + 1;
    }
    v
}

/// A table of buttons indexed by code.
fn button_table(n: usize) -> (r: Vec<ButtonState>)
    ensures
        r@.len() == n,
        forall|i: int| 0 <= i < n ==> #[trigger] r@[i] == (ButtonState { timestamp: 0, down: false }),
{
    let mut v: Vec<ButtonState> = Vec::new();
    let mut i: usize = 0;
    while i < n
        invariant
            i <= n,
            v@.len() == i,
            forall|j: int| 0 <= j < i ==> #[trigger] v@[j] == (ButtonState { timestamp: 0, down: false }),
        decreases n - i,
    {
        v.push(ButtonState::new());
        i = i + 1;
    }
    v
}

/// The keys of the keyboard, by scancode.
pub struct KeyboardState {
    keys: Vec<ButtonState>,
}

impl KeyboardState {
    /// The state of each key.
    pub closed spec fn keys(&self) -> Seq<ButtonState> {
        self.keys@
    }

    /// All keys up.
    pub fn new() -> (r: Self)
        ensures
            r.keys().len() == MAX_KEYBOARD_KEYS,
            forall|i: int| 0 <= i < MAX_KEYBOARD_KEYS ==> #[trigger] r.keys()[i] == (ButtonState { timestamp: 0, down: false }),
    {
        KeyboardState { keys: button_table(MAX_KEYBOARD_KEYS) }
    }

    /// A key goes down. `requires` rules out a code past the table or a key already down.
    pub fn press(&mut self, key: usize, timestamp: u64)
        requires
            key < old(self).keys().len(),
            !old(self).keys()[key as int].down,
        ensures
            final(self).keys() == old(self).keys().update(key as int, ButtonState { timestamp, down: true }),
    {
        let mut state = self.keys[key];
        state.press(timestamp);
        self.keys.set(key, state);
    }

    /// A key goes up. `requires` rules out a code past the table or a key already up.
    pub fn release(&mut self, key: usize, timestamp: u64)
        requires
            key < old(self).keys().len(),
            old(self).keys()[key as int].down,
        ensures
            final(self).keys() == old(self).keys().update(key as int, ButtonState { timestamp, down: false }),
    {
        let mut state = self.keys[key];
        state.release(timestamp);
        self.keys.set(key, state);
    }

    /// The state of a key.
    pub fn button_state(&self, key: usize) -> (r: ButtonState)
        requires
            key < self.keys().len(),
        ensures
            r == self.keys()[key as int],
    {
        self.keys[key]
    }
}

/// The mouse: its position and its buttons.
pub struct MouseState {
    pos: (i32, i32),
    buttons: Vec<ButtonState>,
}

impl MouseState {
    /// The state of each button.
    pub closed spec fn buttons(&self) -> Seq<ButtonState> {
        self.buttons@
    }

    /// The position.
    pub closed spec fn position(&self) -> (i32, i32) {
        self.pos
    }

    /// At the origin, all buttons up.
    pub fn new() -> (r: Self)
        ensures
            r.buttons().len() == MAX_MOUSE_BUTTONS,
            forall|i: int| 0 <= i < MAX_MOUSE_BUTTONS ==> #[trigger] r.buttons()[i] == (ButtonState { timestamp: 0, down: false }),
            r.position() == (0i32, 0i32),
    {
        MouseState { pos: (0, 0), buttons: button_table(MAX_MOUSE_BUTTONS) }
    }

    /// A button goes down. `requires` rules out a button already down.
    pub fn press(&mut self, button: usize, timestamp: u64)
        requires
            button < old(self).buttons().len(),
            !old(self).buttons()[button as int].down,
        ensures
            final(self).buttons() == old(self).buttons().update(button as int, ButtonState { timestamp, down: true }),
            final(self).position() == old(self).position(),
    {
        let mut state = self.buttons[button];
        state.press(timestamp);
        self.buttons.set(button, state);
    }

    /// A button goes up. `requires` rules out a button already up.
    pub fn release(&mut self, button: usize, timestamp: u64)
        requires
            button < old(self).buttons().len(),
            old(self).buttons()[button as int].down,
        ensures
            final(self).buttons() == old(self).buttons().update(button as int, ButtonState { timestamp, down: false }),
            final(self).position() == old(self).position(),
    {
        let mut state = self.buttons[button];
        state.release(timestamp);
        self.buttons.set(button, state);
    }

    /// The mouse moves.
    pub fn set_pos(&mut self, x: i32, y: i32)
        ensures
            final(self).position() == (x, y),
            final(self).buttons() == old(self).buttons(),
    {
        self.pos = (x, y);
    }

    /// The state of a button.
    pub fn button_state(&self, button: usize) -> (r: ButtonState)
        requires
            button < self.buttons().len(),
        ensures
            r == self.buttons()[button as int],
    {
        self.buttons[button]
    }

    /// The position.
    pub fn get_pos(&self) -> (r: (i32, i32))
        ensures
            r == self.position(),
    {
        self.pos
    }
}

/// A controller slot: whether a controller is connected, and its buttons.
pub struct ControllerState {
    connected: bool,
    buttons: Vec<ButtonState>,
    axes: Vec<AxisState>,
}

impl ControllerState {
    /// `after` is `before` with slot `index` set to the given connection, buttons and axes.
    pub open spec fn slots_after(
        before: Seq<ControllerState>,
        after: Seq<ControllerState>,
        index: int,
        connected: bool,
        buttons: Seq<ButtonState>,
        axes: Seq<AxisState>,
    ) -> bool {
        &&& after.len() == before.len()
        &&& forall|j: int| 0 <= j < before.len() && j != index ==> #[trigger] after[j] == before[j]
        &&& after[index].is_connected_spec() == connected
        &&& after[index].buttons() == buttons
        &&& after[index].axes() == axes
    }

    /// Whether a controller is connected.
    pub closed spec fn is_connected_spec(&self) -> bool {
        self.connected
    }

    /// The state of each button.
    pub closed spec fn buttons(&self) -> Seq<ButtonState> {
        self.buttons@
    }

    /// The state of each axis.
    pub closed spec fn axes(&self) -> Seq<AxisState> {
        self.axes@
    }

    /// Whether the slot has no controller, every button up since time zero and every axis at
    /// rest since time zero.
    pub open spec fn is_empty_slot(&self) -> bool {
        &&& !self.is_connected_spec()
        &&& self.buttons().len() == MAX_CONTROLLER_BUTTONS
        &&& forall|i: int| 0 <= i < MAX_CONTROLLER_BUTTONS ==> #[trigger] self.buttons()[i] == (ButtonState { timestamp: 0, down: false })
        &&& self.axes().len() == MAX_CONTROLLER_AXIS
        &&& forall|i: int| 0 <= i < MAX_CONTROLLER_AXIS ==> #[trigger] self.axes()[i] == (AxisState { timestamp: 0, value: 0 })
    }

    /// An empty slot.
    pub fn new() -> (r: Self)
        ensures
            !r.is_connected_spec(),
            r.buttons().len() == MAX_CONTROLLER_BUTTONS,
            forall|i: int| 0 <= i < MAX_CONTROLLER_BUTTONS ==> #[trigger] r.buttons()[i] == (ButtonState { timestamp: 0, down: false }),
            r.axes().len() == MAX_CONTROLLER_AXIS,
            forall|i: int| 0 <= i < MAX_CONTROLLER_AXIS ==> (#[trigger] r.axes()[i]) == (AxisState { timestamp: 0, value: 0 }),
    {
        ControllerState {
            connected: false,
            buttons: button_table(MAX_CONTROLLER_BUTTONS),
            axes: axis_table(MAX_CONTROLLER_AXIS),
        }
    }

    /// Whether a controller is connected.
    pub fn is_connected(&self) -> (r: bool)
        ensures
            r == self.is_connected_spec(),
    {
        self.connected
    }

    /// The state of a button.
    pub fn button_state(&self, button: usize) -> (r: ButtonState)
        requires
            button < self.buttons().len(),
        ensures
            r == self.buttons()[button as int],
    {
        self.buttons[button]
    }

    /// The state of an axis.
    pub fn axis_state(&self, axis: usize) -> (r: AxisState)
        requires
            axis < self.axes().len(),
        ensures
            r == self.axes()[axis as int],
    {
        self.axes[axis]
    }
}

/// The controller slots, and which slot each connected controller id occupies.
pub struct ControllerStateContainer {
    controllers: Vec<ControllerState>,
    id_to_index: BTreeMap<u32, usize>,
}

impl ControllerStateContainer {
    /// The slots.
    pub closed spec fn slots(&self) -> Seq<ControllerState> {
        self.controllers@
    }

    /// The slot of each connected controller id.
    pub closed spec fn slot_of(&self) -> Map<u32, usize> {
        self.id_to_index@
    }

    /// The container's invariant: there are `MAX_CONTROLLERS` slots, and each mapped id names a
    /// connected slot.
    pub closed spec fn wf(&self) -> bool {
        &&& self.controllers@.len() == MAX_CONTROLLERS
        &&& forall|i: int| 0 <= i < MAX_CONTROLLERS ==> (#[trigger] self.controllers@[i]).buttons@.len() == MAX_CONTROLLER_BUTTONS
            && self.controllers@[i].axes@.len() == MAX_CONTROLLER_AXIS
        &&& forall|id: u32| #[trigger] self.id_to_index@.contains_key(id) ==> {
            &&& self.id_to_index@[id] < MAX_CONTROLLERS
            &&& self.controllers@[self.id_to_index@[id] as int].connected
        }
        &&& forall|a: u32, b: u32|
            #[trigger] self.id_to_index@.contains_key(a) && #[trigger] self.id_to_index@.contains_key(b)
                && a != b ==> self.id_to_index@[a] != self.id_to_index@[b]
    }

    /// No controller.
    pub fn new() -> (r: Self)
        ensures
            r.wf(),
            r.slot_of() == Map::<u32, usize>::empty(),
            r.slots().len() == MAX_CONTROLLERS,
            forall|i: int| 0 <= i < MAX_CONTROLLERS ==> (#[trigger] r.slots()[i]).is_empty_slot(),
    {
        let mut controllers: Vec<ControllerState> = Vec::new();
        let mut i: usize = 0;
        while i < MAX_CONTROLLERS
            invariant
                i <= MAX_CONTROLLERS,
                controllers@.len() == i,
                forall|j: int| 0 <= j < i ==> !(#[trigger] controllers@[j]).connected,
                forall|j: int| 0 <= j < i ==> (#[trigger] controllers@[j]).buttons@.len() == MAX_CONTROLLER_BUTTONS
                    && controllers@[j].axes@.len() == MAX_CONTROLLER_AXIS,
                forall|j: int| 0 <= j < i ==> (#[trigger] controllers@[j]).is_empty_slot(),
            decreases MAX_CONTROLLERS - i,
        {
            controllers.push(ControllerState::new());
            i = i + 1;
        }
        ControllerStateContainer { controllers, id_to_index: BTreeMap::new() }
    }

    /// A controller connects in slot `index` under id `id`. `requires` asks that the slot
    /// is free.
    pub fn add(&mut self, index: u32, id: u32)
        requires
            old(self).wf(),
            (index as int) < MAX_CONTROLLERS,
            !old(self).slots()[index as int].is_connected_spec(),
        ensures
            final(self).wf(),
            final(self).slot_of() == old(self).slot_of().insert(id, index as usize),
            ControllerState::slots_after(old(self).slots(), final(self).slots(), index as int, true, old(self).slots()[index as int].buttons(), old(self).slots()[index as int].axes()),
    {
        let i = index as usize;
        let buttons = self.controllers[i].buttons.clone();
        let axes = self.controllers[i].axes.clone();
        self.controllers.set(i, ControllerState { connected: true, buttons, axes });
        self.id_to_index.insert(id, i);
    }

    /// The controller with id `id` disconnects. `requires` rules out an unmapped id.
    pub fn remove(&mut self, id: u32)
        requires
            old(self).wf(),
            old(self).slot_of().contains_key(id),
        ensures
            final(self).wf(),
            final(self).slot_of() == old(self).slot_of().remove(id),
            ControllerState::slots_after(old(self).slots(), final(self).slots(), old(self).slot_of()[id] as int, false, old(self).slots()[old(self).slot_of()[id] as int].buttons(), old(self).slots()[old(self).slot_of()[id] as int].axes()),
    {
        let i = *self.id_to_index.get(&id).unwrap();
        let buttons = self.controllers[i].buttons.clone();
        let axes = self.controllers[i].axes.clone();
        self.controllers.set(i, ControllerState { connected: false, buttons, axes });
        self.id_to_index.remove(&id);
        proof {
            assert(self.id_to_index@ == old(self).slot_of().remove(id));
            assert forall|a: u32| #[trigger] self.id_to_index@.contains_key(a) implies {
                &&& self.id_to_index@[a] < MAX_CONTROLLERS
                &&& self.controllers@[self.id_to_index@[a] as int].connected
            } by {
                assert(old(self).id_to_index@.contains_key(a));
                assert(old(self).id_to_index@.contains_key(id));
                assert(a != id);
                assert(old(self).id_to_index@[a] != old(self).id_to_index@[id]);
            }
        }
    }

    /// A button of the controller with id `id` goes down. `requires` rules out an unmapped id
    /// and on a button already down.
    pub fn press_button(&mut self, id: u32, button: usize, timestamp: u64)
        requires
            old(self).wf(),
            old(self).slot_of().contains_key(id),
            button < MAX_CONTROLLER_BUTTONS,
            !old(self).slots()[old(self).slot_of()[id] as int].buttons()[button as int].down,
        ensures
            final(self).wf(),
            final(self).slot_of() == old(self).slot_of(),
            ControllerState::slots_after(old(self).slots(), final(self).slots(), old(self).slot_of()[id] as int, true, old(self).slots()[old(self).slot_of()[id] as int].buttons().update(
                button as int,
                ButtonState { timestamp, down: true },
            ), old(self).slots()[old(self).slot_of()[id] as int].axes()),
    {
        let i = *self.id_to_index.get(&id).unwrap();
        let mut buttons = self.controllers[i].buttons.clone();
        let mut state = buttons[button];
        state.press(timestamp);
        buttons.set(button, state);
        let axes = self.controllers[i].axes.clone();
        self.controllers.set(i, ControllerState { connected: true, buttons, axes });
    }

    /// A button of the controller with id `id` goes up. `requires` rules out an unmapped id
    /// and on a button already up.
    pub fn release_button(&mut self, id: u32, button: usize, timestamp: u64)
        requires
            old(self).wf(),
            old(self).slot_of().contains_key(id),
            button < MAX_CONTROLLER_BUTTONS,
            old(self).slots()[old(self).slot_of()[id] as int].buttons()[button as int].down,
        ensures
            final(self).wf(),
            final(self).slot_of() == old(self).slot_of(),
            ControllerState::slots_after(old(self).slots(), final(self).slots(), old(self).slot_of()[id] as int, true, old(self).slots()[old(self).slot_of()[id] as int].buttons().update(
                button as int,
                ButtonState { timestamp, down: false },
            ), old(self).slots()[old(self).slot_of()[id] as int].axes()),
    {
        let i = *self.id_to_index.get(&id).unwrap();
        let mut buttons = self.controllers[i].buttons.clone();
        let mut state = buttons[button];
        state.release(timestamp);
        buttons.set(button, state);
        let axes = self.controllers[i].axes.clone();
        self.controllers.set(i, ControllerState { connected: true, buttons, axes });
    }

    /// An axis of the controller with id `id` moves to the raw reading `value`. `requires`
    /// rules out an unmapped id.
    pub fn update_axis(&mut self, id: u32, axis: usize, value: i16, timestamp: u64)
        requires
            old(self).wf(),
            old(self).slot_of().contains_key(id),
            axis < MAX_CONTROLLER_AXIS,
        ensures
            final(self).wf(),
            final(self).slot_of() == old(self).slot_of(),
            ControllerState::slots_after(old(self).slots(), final(self).slots(), old(self).slot_of()[id] as int, true, old(self).slots()[old(self).slot_of()[id] as int].buttons(), old(self).slots()[old(self).slot_of()[id] as int].axes().update(
                axis as int,
                AxisState { timestamp, value },
            )),
    {
        let i = *self.id_to_index.get(&id).unwrap();
        let buttons = self.controllers[i].buttons.clone();
        let mut axes = self.controllers[i].axes.clone();
        axes.set(axis, AxisState { timestamp, value });
        self.controllers.set(i, ControllerState { connected: true, buttons, axes });
    }

    /// The slot `index`, where a controller is connected there.
    pub fn controller_state(&self, index: usize) -> (r: Option<&ControllerState>)
        requires
            self.wf(),
            index < MAX_CONTROLLERS,
        ensures
            match r {
                Some(c) => {
                    &&& self.slots()[index as int].is_connected_spec()
                    &&& *c == self.slots()[index as int]
                    &&& c.buttons().len() == MAX_CONTROLLER_BUTTONS
                    &&& c.axes().len() == MAX_CONTROLLER_AXIS
                },
                None => !self.slots()[index as int].is_connected_spec(),
            },
    {
        if self.controllers[index].connected {
            Some(&self.controllers[index])
        } else {
            None
        }
    }
}

/// An input event, as the window system reports it.
#[derive(Copy, Clone, Debug, PartialEq, Eq, Structural)]
pub enum InputEvent {
    KeyDown { scancode: usize, repeat: bool },
    KeyUp { scancode: usize, repeat: bool },
    MouseButtonDown { button: usize },
    MouseButtonUp { button: usize },
    MouseMotion { x: i32, y: i32 },
    /// A controller was opened in slot `index`; it reports events under `id`.
    ControllerDeviceAdded { index: u32, id: u32 },
    ControllerDeviceRemoved { id: u32 },
    ControllerButtonDown { id: u32, button: usize },
    ControllerButtonUp { id: u32, button: usize },
    ControllerAxisMotion { id: u32, axis: usize, value: i16 },
    /// Any other event; it changes nothing.
    Other,
}

/// The keyboard, the mouse and the controllers.
pub struct InputSystem {
    keyboard: KeyboardState,
    mouse: MouseState,
    controllers: ControllerStateContainer,
}

impl InputSystem {
    /// The state of each key.
    pub closed spec fn keys(&self) -> Seq<ButtonState> {
        self.keyboard.keys()
    }

    /// The state of each mouse button.
    pub closed spec fn mouse_buttons(&self) -> Seq<ButtonState> {
        self.mouse.buttons()
    }

    /// The position of the mouse.
    pub closed spec fn mouse_position(&self) -> (i32, i32) {
        self.mouse.position()
    }

    /// The controller slots.
    pub closed spec fn slots(&self) -> Seq<ControllerState> {
        self.controllers.slots()
    }

    /// The slot of each connected controller id.
    pub closed spec fn slot_of(&self) -> Map<u32, usize> {
        self.controllers.slot_of()
    }

    /// The system's invariant: full tables, and each mapped id names a connected slot.
    pub closed spec fn wf(&self) -> bool {
        &&& self.keyboard.keys().len() == MAX_KEYBOARD_KEYS
        &&& self.mouse.buttons().len() == MAX_MOUSE_BUTTONS
        &&& self.controllers.wf()
    }

    /// Whether handling `event` keeps to what the devices can report: a key or button goes down
    /// only while up and up only while down, within its table, and a controller event names a
    /// connected controller (or, when one connects, a free slot).
    pub open spec fn accepts(&self, event: InputEvent) -> bool {
        match event {
            InputEvent::KeyDown { scancode, repeat } => !repeat ==> scancode < MAX_KEYBOARD_KEYS
                && !self.keys()[scancode as int].down,
            InputEvent::KeyUp { scancode, repeat } => !repeat ==> scancode < MAX_KEYBOARD_KEYS
                && self.keys()[scancode as int].down,
            InputEvent::MouseButtonDown { button } => button < MAX_MOUSE_BUTTONS
                && !self.mouse_buttons()[button as int].down,
            InputEvent::MouseButtonUp { button } => button < MAX_MOUSE_BUTTONS
                && self.mouse_buttons()[button as int].down,
            InputEvent::ControllerDeviceAdded { index, id } => (index as int) < MAX_CONTROLLERS
                && !self.slots()[index as int].is_connected_spec(),
            InputEvent::ControllerDeviceRemoved { id } => self.slot_of().contains_key(id),
            InputEvent::ControllerButtonDown { id, button } => self.slot_of().contains_key(id)
                && button < MAX_CONTROLLER_BUTTONS
                && !self.slots()[self.slot_of()[id] as int].buttons()[button as int].down,
            InputEvent::ControllerButtonUp { id, button } => self.slot_of().contains_key(id)
                && button < MAX_CONTROLLER_BUTTONS
                && self.slots()[self.slot_of()[id] as int].buttons()[button as int].down,
            InputEvent::ControllerAxisMotion { id, axis, value } => self.slot_of().contains_key(id)
                && axis < MAX_CONTROLLER_AXIS,
            _ => true,
        }
    }

    /// The controllers' state is the same in both.
    pub open spec fn same_controllers(&self, other: &InputSystem) -> bool {
        &&& other.slots() == self.slots()
        &&& other.slot_of() == self.slot_of()
    }

    /// No key, no mouse button, no controller.
    pub fn new() -> (r: Self)
        ensures
            r.wf(),
            r.keys().len() == MAX_KEYBOARD_KEYS,
            forall|i: int| 0 <= i < MAX_KEYBOARD_KEYS ==> #[trigger] r.keys()[i] == (ButtonState { timestamp: 0, down: false }),
            r.mouse_buttons().len() == MAX_MOUSE_BUTTONS,
            forall|i: int| 0 <= i < MAX_MOUSE_BUTTONS ==> #[trigger] r.mouse_buttons()[i] == (ButtonState { timestamp: 0, down: false }),
            r.mouse_position() == (0i32, 0i32),
            r.slot_of() == Map::<u32, usize>::empty(),
            r.slots().len() == MAX_CONTROLLERS,
            forall|i: int| 0 <= i < MAX_CONTROLLERS ==> (#[trigger] r.slots()[i]).is_empty_slot(),
    {
        InputSystem {
            keyboard: KeyboardState::new(),
            mouse: MouseState::new(),
            controllers: ControllerStateContainer::new(),
        }
    }

    /// Applies one event at `timestamp`.
    pub fn handle_input(&mut self, event: InputEvent, timestamp: u64)
        requires
            old(self).wf(),
            old(self).accepts(event),
        ensures
            final(self).wf(),
            match event {
                InputEvent::KeyDown { scancode, repeat } => {
                    &&& final(self).keys() == if repeat { old(self).keys() } else {
                        old(self).keys().update(scancode as int, ButtonState { timestamp, down: true })
                    }
                    &&& final(self).mouse_buttons() == old(self).mouse_buttons()
                    &&& final(self).mouse_position() == old(self).mouse_position()
                    &&& old(self).same_controllers(final(self))
                },
                InputEvent::KeyUp { scancode, repeat } => {
                    &&& final(self).keys() == if repeat { old(self).keys() } else {
                        old(self).keys().update(scancode as int, ButtonState { timestamp, down: false })
                    }
                    &&& final(self).mouse_buttons() == old(self).mouse_buttons()
                    &&& final(self).mouse_position() == old(self).mouse_position()
                    &&& old(self).same_controllers(final(self))
                },
                InputEvent::MouseButtonDown { button } => {
                    &&& final(self).keys() == old(self).keys()
                    &&& final(self).mouse_buttons() == old(self).mouse_buttons().update(
                        button as int,
                        ButtonState { timestamp, down: true },
                    )
                    &&& final(self).mouse_position() == old(self).mouse_position()
                    &&& old(self).same_controllers(final(self))
                },
                InputEvent::MouseButtonUp { button } => {
                    &&& final(self).keys() == old(self).keys()
                    &&& final(self).mouse_buttons() == old(self).mouse_buttons().update(
                        button as int,
                        ButtonState { timestamp, down: false },
                    )
                    &&& final(self).mouse_position() == old(self).mouse_position()
                    &&& old(self).same_controllers(final(self))
                },
                InputEvent::MouseMotion { x, y } => {
                    &&& final(self).keys() == old(self).keys()
                    &&& final(self).mouse_buttons() == old(self).mouse_buttons()
                    &&& final(self).mouse_position() == (x, y)
                    &&& old(self).same_controllers(final(self))
                },
                InputEvent::ControllerDeviceAdded { index, id } => {
                    &&& final(self).keys() == old(self).keys()
                    &&& final(self).mouse_buttons() == old(self).mouse_buttons()
                    &&& final(self).mouse_position() == old(self).mouse_position()
                    &&& final(self).slot_of() == old(self).slot_of().insert(id, index as usize)
                    &&& ControllerState::slots_after(old(self).slots(), final(self).slots(), index as int, true,
                        old(self).slots()[index as int].buttons(), old(self).slots()[index as int].axes())
                },
                InputEvent::ControllerDeviceRemoved { id } => {
                    let slot = old(self).slot_of()[id] as int;
                    &&& final(self).keys() == old(self).keys()
                    &&& final(self).mouse_buttons() == old(self).mouse_buttons()
                    &&& final(self).mouse_position() == old(self).mouse_position()
                    &&& final(self).slot_of() == old(self).slot_of().remove(id)
                    &&& ControllerState::slots_after(old(self).slots(), final(self).slots(), slot, false,
                        old(self).slots()[slot].buttons(), old(self).slots()[slot].axes())
                },
                InputEvent::ControllerButtonDown { id, button } => {
                    let slot = old(self).slot_of()[id] as int;
                    &&& final(self).keys() == old(self).keys()
                    &&& final(self).mouse_buttons() == old(self).mouse_buttons()
                    &&& final(self).mouse_position() == old(self).mouse_position()
                    &&& final(self).slot_of() == old(self).slot_of()
                    &&& ControllerState::slots_after(old(self).slots(), final(self).slots(), slot, true,
                        old(self).slots()[slot].buttons().update(button as int, ButtonState { timestamp, down: true }),
                        old(self).slots()[slot].axes())
                },
                InputEvent::ControllerButtonUp { id, button } => {
                    let slot = old(self).slot_of()[id] as int;
                    &&& final(self).keys() == old(self).keys()
                    &&& final(self).mouse_buttons() == old(self).mouse_buttons()
                    &&& final(self).mouse_position() == old(self).mouse_position()
                    &&& final(self).slot_of() == old(self).slot_of()
                    &&& ControllerState::slots_after(old(self).slots(), final(self).slots(), slot, true,
                        old(self).slots()[slot].buttons().update(button as int, ButtonState { timestamp, down: false }),
                        old(self).slots()[slot].axes())
                },
                InputEvent::ControllerAxisMotion { id, axis, value } => {
                    let slot = old(self).slot_of()[id] as int;
                    &&& final(self).keys() == old(self).keys()
                    &&& final(self).mouse_buttons() == old(self).mouse_buttons()
                    &&& final(self).mouse_position() == old(self).mouse_position()
                    &&& final(self).slot_of() == old(self).slot_of()
                    &&& ControllerState::slots_after(old(self).slots(), final(self).slots(), slot, true,
                        old(self).slots()[slot].buttons(),
                        old(self).slots()[slot].axes().update(axis as int, AxisState { timestamp, value }))
                },
                InputEvent::Other => {
                    &&& final(self).keys() == old(self).keys()
                    &&& final(self).mouse_buttons() == old(self).mouse_buttons()
                    &&& final(self).mouse_position() == old(self).mouse_position()
                    &&& old(self).same_controllers(final(self))
                },
            },
    {
        match event {
            InputEvent::KeyDown { scancode, repeat } => {
                if !repeat {
                    self.keyboard.press(scancode, timestamp);
                }
            },
            InputEvent::KeyUp { scancode, repeat } => {
                if !repeat {
                    self.keyboard.release(scancode, timestamp);
                }
            },
            InputEvent::MouseButtonDown { button } => {
                self.mouse.press(button, timestamp);
            },
            InputEvent::MouseButtonUp { button } => {
                self.mouse.release(button, timestamp);
            },
            InputEvent::MouseMotion { x, y } => {
                self.mouse.set_pos(x, y);
            },
            InputEvent::ControllerDeviceAdded { index, id } => {
                self.controllers.add(index, id);
            },
            InputEvent::ControllerDeviceRemoved { id } => {
                self.controllers.remove(id);
            },
            InputEvent::ControllerButtonDown { id, button } => {
                self.controllers.press_button(id, button, timestamp);
            },
            InputEvent::ControllerButtonUp { id, button } => {
                self.controllers.release_button(id, button, timestamp);
            },
            InputEvent::ControllerAxisMotion { id, axis, value } => {
                self.controllers.update_axis(id, axis, value, timestamp);
            },
            InputEvent::Other => {},
        }
    }

    /// The slot of the connected controller with id `id`, if any.
    pub fn controller_slot(&self, id: u32) -> (r: Option<usize>)
        requires
            self.wf(),
        ensures
            match r {
                Some(i) => self.slot_of().contains_key(id) && self.slot_of()[id] == i,
                None => !self.slot_of().contains_key(id),
            },
    {
        match self.controllers.id_to_index.get(&id) {
            Some(i) => Some(*i),
            None => None,
        }
    }

    /// Whether `event` keeps to what the devices can report (see `accepts`).
    pub fn accepts_event(&self, event: InputEvent) -> (r: bool)
        requires
            self.wf(),
        ensures
            r == self.accepts(event),
    {
        match event {
            InputEvent::KeyDown { scancode, repeat } => repeat || (scancode < MAX_KEYBOARD_KEYS
                && !self.keyboard.button_state(scancode).down),
            InputEvent::KeyUp { scancode, repeat } => repeat || (scancode < MAX_KEYBOARD_KEYS
                && self.keyboard.button_state(scancode).down),
            InputEvent::MouseButtonDown { button } => button < MAX_MOUSE_BUTTONS
                && !self.mouse.button_state(button).down,
            InputEvent::MouseButtonUp { button } => button < MAX_MOUSE_BUTTONS
                && self.mouse.button_state(button).down,
            InputEvent::ControllerDeviceAdded { index, id } => (index as usize) < MAX_CONTROLLERS
                && self.controllers.controller_state(index as usize).is_none(),
            InputEvent::ControllerDeviceRemoved { id } => self.controller_slot(id).is_some(),
            InputEvent::ControllerButtonDown { id, button } => match self.controller_slot(id) {
                Some(i) => button < MAX_CONTROLLER_BUTTONS
                    && !self.controllers.controllers[i].button_state(button).down,
                None => false,
            },
            InputEvent::ControllerButtonUp { id, button } => match self.controller_slot(id) {
                Some(i) => button < MAX_CONTROLLER_BUTTONS
                    && self.controllers.controllers[i].button_state(button).down,
                None => false,
            },
            InputEvent::ControllerAxisMotion { id, axis, value } => self.controller_slot(id).is_some()
                && axis < MAX_CONTROLLER_AXIS,
            InputEvent::MouseMotion { x, y } => true,
            InputEvent::Other => true,
        }
    }

    /// The state of a key.
    pub fn key_state(&self, key: usize) -> (r: ButtonState)
        requires
            self.wf(),
            key < MAX_KEYBOARD_KEYS,
        ensures
            r == self.keys()[key as int],
    {
        self.keyboard.button_state(key)
    }

    /// The state of a mouse button.
    pub fn mouse_button_state(&self, button: usize) -> (r: ButtonState)
        requires
            self.wf(),
            button < MAX_MOUSE_BUTTONS,
        ensures
            r == self.mouse_buttons()[button as int],
    {
        self.mouse.button_state(button)
    }

    /// The position of the mouse.
    pub fn mouse_pos(&self) -> (r: (i32, i32))
        ensures
            r == self.mouse_position(),
    {
        self.mouse.get_pos()
    }

    /// The controller in slot `index`, where one is connected.
    pub fn controller_state(&self, index: usize) -> (r: Option<&ControllerState>)
        requires
            self.wf(),
            index < MAX_CONTROLLERS,
        ensures
            match r {
                Some(c) => {
                    &&& self.slots()[index as int].is_connected_spec()
                    &&& *c == self.slots()[index as int]
                    &&& c.buttons().len() == MAX_CONTROLLER_BUTTONS
                    &&& c.axes().len() == MAX_CONTROLLER_AXIS
                },
                None => !self.slots()[index as int].is_connected_spec(),
            },
    {
        self.controllers.controller_state(index)
    }
}

} // verus!
