//! Input from evdev: which devices to read, and what their events mean.

use vstd::prelude::*;
use crate::keys::{EmitKind, KeyClass};
use crate::linux_backend::pointer::Pointer;

verus! {

/// What a device reported.
#[derive(Debug, Clone, Copy, PartialEq, Eq, Structural)]
pub enum InputSignal {
    Key(KeyClass),
    /// Raw relative pointer motion, used only by the fallback pointer tracker.
    Motion { dx: i32, dy: i32 },
}

/// Mouse and gamepad buttons share their event type with the keyboard; they start here.
pub const BTN_MISC: u16 = 0x100;

pub const KEY_BACKSPACE: u16 = 14;

pub const KEY_LEFTCTRL: u16 = 29;

pub const KEY_A: u16 = 30;

pub const KEY_LEFTSHIFT: u16 = 42;

pub const KEY_Z: u16 = 44;

pub const KEY_RIGHTSHIFT: u16 = 54;

pub const KEY_LEFTALT: u16 = 56;

pub const KEY_SPACE: u16 = 57;

pub const KEY_CAPSLOCK: u16 = 58;

pub const KEY_NUMLOCK: u16 = 69;

pub const KEY_SCROLLLOCK: u16 = 70;

pub const KEY_RIGHTCTRL: u16 = 97;

pub const KEY_RIGHTALT: u16 = 100;

pub const KEY_DELETE: u16 = 111;

pub const KEY_LEFTMETA: u16 = 125;

pub const KEY_RIGHTMETA: u16 = 126;

pub const KEY_COMPOSE: u16 = 127;

pub const REL_X: u16 = 0;

pub const REL_Y: u16 = 1;

/// The value of a key that goes down.
pub const KEY_PRESSED: i32 = 1;

/// The value of a key that is held down and repeats.
pub const KEY_REPEATED: i32 = 2;

/// The event type of keys and buttons.
pub const EV_KEY: u16 = 1;

/// The event type of relative axes.
pub const EV_REL: u16 = 2;

/// The keys that change the meaning of others, or lock something.
pub open spec fn modifiers() -> Set<u16> {
    set![
        KEY_LEFTSHIFT,
        KEY_RIGHTSHIFT,
        KEY_LEFTCTRL,
        KEY_RIGHTCTRL,
        KEY_LEFTALT,
        KEY_RIGHTALT,
        KEY_LEFTMETA,
        KEY_RIGHTMETA,
        KEY_CAPSLOCK,
        KEY_NUMLOCK,
        KEY_SCROLLLOCK,
        KEY_COMPOSE,
    ]
}

/// The class of the key or button with a code.
pub open spec fn class_of(code: u16) -> KeyClass {
    if code >= BTN_MISC || modifiers().contains(code) {
        KeyClass::Ignore
    } else if code == KEY_BACKSPACE || code == KEY_DELETE {
        KeyClass::Delete
    } else {
        KeyClass::Text
    }
}

/// Classifies a key by its code.
pub fn classify(code: u16) -> (class: KeyClass)
    ensures
        class == class_of(code),
{
    if code >= BTN_MISC {
        return KeyClass::Ignore;
    }
    if code == KEY_BACKSPACE || code == KEY_DELETE {
        return KeyClass::Delete;
    }
    if code == KEY_LEFTSHIFT || code == KEY_RIGHTSHIFT || code == KEY_LEFTCTRL || code
        == KEY_RIGHTCTRL || code == KEY_LEFTALT || code == KEY_RIGHTALT || code == KEY_LEFTMETA
        || code == KEY_RIGHTMETA || code == KEY_CAPSLOCK || code == KEY_NUMLOCK || code
        == KEY_SCROLLLOCK || code == KEY_COMPOSE {
        return KeyClass::Ignore;
    }
    KeyClass::Text
}

/// evdev's set of the codes that a device supports.
#[verifier::external_type_specification]
#[verifier::external_body]
#[verifier::reject_recursive_types(T)]
pub struct ExAttributeSetRef<T>(evdev::AttributeSetRef<T>);

/// evdev's key code.
#[verifier::external_type_specification]
#[verifier::external_body]
pub struct ExKeyCode(evdev::KeyCode);

/// evdev's code of a relative axis.
#[verifier::external_type_specification]
#[verifier::external_body]
pub struct ExRelativeAxisCode(evdev::RelativeAxisCode);

/// The codes of the keys in a set.
pub uninterp spec fn key_codes(keys: &evdev::AttributeSetRef<evdev::KeyCode>) -> Set<u16>;

/// The codes of the axes in a set.
pub uninterp spec fn axis_codes(axes: &evdev::AttributeSetRef<evdev::RelativeAxisCode>) -> Set<
    u16,
>;

/// `AttributeSetRef::contains` on a set of keys: whether the key with that code is in it. A code
/// beyond the end of the set is not.
#[verifier::external_body]
fn has_key(keys: &evdev::AttributeSetRef<evdev::KeyCode>, code: u16) -> (b: bool)
    ensures
        b == key_codes(keys).contains(code),
{
    keys.contains(evdev::KeyCode(code))
}

/// `AttributeSetRef::contains` on a set of relative axes: whether the axis with that code is in
/// it. A code beyond the end of the set is not.
#[verifier::external_body]
fn has_axis(axes: &evdev::AttributeSetRef<evdev::RelativeAxisCode>, code: u16) -> (b: bool)
    ensures
        b == axis_codes(axes).contains(code),
{
    axes.contains(evdev::RelativeAxisCode(code))
}

/// A keyboard is a device with at least the keys A, Z and space.
pub fn is_keyboard(keys: Option<&evdev::AttributeSetRef<evdev::KeyCode>>) -> (b: bool)
    ensures
        b == (keys matches Some(k) && key_codes(k).contains(KEY_A) && key_codes(k).contains(KEY_Z)
            && key_codes(k).contains(KEY_SPACE)),
{
    match keys {
        Some(k) => has_key(k, KEY_A) && has_key(k, KEY_Z) && has_key(k, KEY_SPACE),
        None => false,
    }
}

/// A pointer is a device with a horizontal relative axis.
pub fn is_pointer(axes: Option<&evdev::AttributeSetRef<evdev::RelativeAxisCode>>) -> (b: bool)
    ensures
        b == (axes matches Some(a) && axis_codes(a).contains(REL_X)),
{
    match axes {
        Some(a) => has_axis(a, REL_X),
        None => false,
    }
}

/// An event as the kernel delivers it.
#[derive(Debug, Clone, Copy, PartialEq, Eq, Structural)]
pub struct RawEvent {
    pub kind: u16,
    pub code: u16,
    pub value: i32,
}

/// The kinds of events that matter here.
#[derive(Debug, Clone, Copy, PartialEq, Eq, Structural)]
pub enum DeviceEvent {
    Key { code: u16, value: i32 },
    RelativeAxis { axis: u16, value: i32 },
    Other,
}

/// The meaning of an event by its type: only keys and relative axes matter.
pub open spec fn summary_of(event: RawEvent) -> DeviceEvent {
    if event.kind == EV_KEY {
        DeviceEvent::Key { code: event.code, value: event.value }
    } else if event.kind == EV_REL {
        DeviceEvent::RelativeAxis { axis: event.code, value: event.value }
    } else {
        DeviceEvent::Other
    }
}

/// `InputEvent::destructure` on the event that `InputEvent::new` makes of a type, a code and a
/// value: it tells the types apart, and hands out the code and the value unchanged.
#[verifier::external_body]
fn destructure(event: RawEvent) -> (summary: DeviceEvent)
    ensures
        summary == summary_of(event),
{
    match evdev::InputEvent::new(event.kind, event.code, event.value).destructure() {
        evdev::EventSummary::Key(_, code, value) => DeviceEvent::Key { code: code.code(), value },
        evdev::EventSummary::RelativeAxis(_, axis, value) => DeviceEvent::RelativeAxis {
            axis: axis.0,
            value,
        },
        _ => DeviceEvent::Other,
    }
}

/// The signal that an event of a device sets off, if any. Keys count only on a keyboard, when
/// their value says that they are pressed or that they repeat, and if they are not to be ignored.
/// Motion counts only on a pointer, along one axis at a time.
pub open spec fn signal_of(event: RawEvent, keyboard: bool, pointer: bool) -> Option<InputSignal> {
    match summary_of(event) {
        DeviceEvent::Key { code, value } => {
            if keyboard && (value == KEY_PRESSED || value == KEY_REPEATED) && class_of(code) != KeyClass::Ignore {
                Some(InputSignal::Key(class_of(code)))
            } else {
                None
            }
        },
        DeviceEvent::RelativeAxis { axis, value } => {
            if pointer && axis == REL_X {
                Some(InputSignal::Motion { dx: value, dy: 0 })
            } else if pointer && axis == REL_Y {
                Some(InputSignal::Motion { dx: 0, dy: value })
            } else {
                None
            }
        },
        DeviceEvent::Other => None,
    }
}

/// The signals that a batch of events sets off, in order.
pub open spec fn signals_of(events: Seq<RawEvent>, keyboard: bool, pointer: bool) -> Seq<
    InputSignal,
>
    decreases events.len(),
{
    if events.len() == 0 {
        Seq::empty()
    } else {
        let earlier = signals_of(events.drop_last(), keyboard, pointer);
        match signal_of(events.last(), keyboard, pointer) {
            Some(signal) => earlier.push(signal),
            None => earlier,
        }
    }
}

/// Interprets one event of a device.
pub fn read_event(event: RawEvent, keyboard: bool, pointer: bool) -> (signal: Option<InputSignal>)
    ensures
        signal == signal_of(event, keyboard, pointer),
{
    match destructure(event) {
        DeviceEvent::Key { code, value } => {
            // Releases must not emit.
            if keyboard && (value == KEY_PRESSED || value == KEY_REPEATED) {
                let class = classify(code);
                if class != KeyClass::Ignore {
                    return Some(InputSignal::Key(class));
                }
            }
            None
        },
        DeviceEvent::RelativeAxis { axis, value } => {
            if !pointer {
                None
            } else if axis == REL_X {
                Some(InputSignal::Motion { dx: value, dy: 0 })
            } else if axis == REL_Y {
                Some(InputSignal::Motion { dx: 0, dy: value })
            } else {
                None
            }
        },
        DeviceEvent::Other => None,
    }
}

/// Interprets a batch of events of a device.
pub fn read_device(events: &Vec<RawEvent>, keyboard: bool, pointer: bool) -> (signals: Vec<
    InputSignal,
>)
    ensures
        signals@ == signals_of(events@, keyboard, pointer),
{
    let mut signals: Vec<InputSignal> = Vec::new();
    let mut i: usize = 0;
    while i < events.len()
        invariant
            i <= events@.len(),
            signals@ == signals_of(events@.take(i as int), keyboard, pointer),
        decreases events@.len() - i,
    {
        assert(events@.take(i as int + 1).drop_last() == events@.take(i as int));
        if let Some(signal) = read_event(events[i], keyboard, pointer) {
            signals.push(signal);
        }
        i = i + 1;
    }
    assert(events@.take(i as int) == events@);
    signals
}

/// The devices that are being read, each by its path.
#[derive(Debug)]
pub struct ActiveDevices {
    pub paths: Vec<Vec<u8>>,
}

/// Whether two byte strings are the same.
fn same_bytes(a: &Vec<u8>, b: &Vec<u8>) -> (same: bool)
    ensures
        same == (a@ == b@),
{
    if a.len() != b.len() {
        return false;
    }
    let mut i: usize = 0;
    while i < a.len()
        invariant
            i <= a@.len(),
            a@.len() == b@.len(),
            forall|j: int| 0 <= j < i ==> a@[j] == b@[j],
        decreases a@.len() - i,
    {
        if a[i] != b[i] {
            return false;
        }
        i = i + 1;
    }
    assert(a@ == b@);
    true
}

impl ActiveDevices {
    /// The paths.
    pub open spec fn set(self) -> Set<Seq<u8>> {
        Set::new(|p: Seq<u8>| exists|i: int| 0 <= i < self.paths@.len() && #[trigger] self.paths@[i]@ == p)
    }

    /// No path is listed twice.
    pub open spec fn well_formed(self) -> bool {
        forall|i: int, j: int|
            0 <= i < j < self.paths@.len() ==> #[trigger] self.paths@[i]@ != #[trigger] self.paths@[j]@
    }

    /// No device is being read.
    pub fn new() -> (d: Self)
        ensures
            d.well_formed(),
            d.set() == Set::<Seq<u8>>::empty(),
    {
        ActiveDevices { paths: Vec::new() }
    }

    fn find(&self, path: &Vec<u8>) -> (at: Option<usize>)
        ensures
            at is None <==> !self.set().contains(path@),
            at matches Some(i) ==> i < self.paths@.len() && self.paths@[i as int]@ == path@,
    {
        let mut i: usize = 0;
        while i < self.paths.len()
            invariant
                i <= self.paths@.len(),
                forall|j: int| 0 <= j < i ==> #[trigger] self.paths@[j]@ != path@,
            decreases self.paths@.len() - i,
        {
            if same_bytes(&self.paths[i], path) {
                return Some(i);
            }
            i = i + 1;
        }
        None
    }

    /// Whether a device is being read.
    pub fn contains(&self, path: &Vec<u8>) -> (b: bool)
        ensures
            b == self.set().contains(path@),
    {
        self.find(path).is_some()
    }

    /// Decides about a device that a scan found: it is read, and counts as active from now on, if
    /// it is not being read already and is a keyboard or a pointer.
    pub fn scan(&mut self, path: Vec<u8>, keyboard: bool, pointer: bool) -> (read: bool)
        requires
            old(self).well_formed(),
        ensures
            final(self).well_formed(),
            read == (!old(self).set().contains(path@) && (keyboard || pointer)),
            final(self).set() == if read {
                old(self).set().insert(path@)
            } else {
                old(self).set()
            },
    {
        if self.contains(&path) {
            return false;
        }
        if !keyboard && !pointer {
            return false;
        }
        let ghost before = self.paths@;
        let ghost added = path@;
        self.paths.push(path);
        proof {
            assert(self.paths@[before.len() as int]@ == added);
            assert forall|p: Seq<u8>| self.set().contains(p) == old(self).set().insert(
                added,
            ).contains(p) by {
                if old(self).set().contains(p) {
                    let i = choose|i: int| 0 <= i < before.len() && #[trigger] before[i]@ == p;
                    assert(self.paths@[i]@ == p);
                }
                if self.set().contains(p) && p != added {
                    let i = choose|i: int|
                        0 <= i < self.paths@.len() && #[trigger] self.paths@[i]@ == p;
                    assert(before[i]@ == p);
                }
            }
            assert(self.set() =~= old(self).set().insert(added));
            assert forall|i: int, j: int| 0 <= i < j < self.paths@.len() implies #[trigger] self.paths@[i]@ != #[trigger] self.paths@[j]@ by {
                assert(before[i] == self.paths@[i]);
                assert(old(self).set().contains(before[i]@));
                if j < before.len() {
                    assert(before[j] == self.paths@[j]);
                }
            }
        }
        true
    }

    /// A device is no longer read, so that a later scan can pick it up again.
    pub fn stopped(&mut self, path: &Vec<u8>)
        requires
            old(self).well_formed(),
        ensures
            final(self).well_formed(),
            final(self).set() == old(self).set().remove(path@),
    {
        if let Some(at) = self.find(path) {
            let ghost before = self.paths@;
            let _ = self.paths.remove(at);
            proof {
                let after = self.paths@;
                assert forall|p: Seq<u8>| self.set().contains(p) == old(self).set().remove(
                    path@,
                ).contains(p) by {
                    if self.set().contains(p) {
                        let i = choose|i: int| 0 <= i < after.len() && #[trigger] after[i]@ == p;
                        let k = if i < at {
                            i
                        } else {
                            i + 1
                        };
                        assert(before[k]@ == p);
                        assert(before[at as int]@ == path@);
                    }
                    if old(self).set().contains(p) && p != path@ {
                        let k = choose|k: int|
                            0 <= k < before.len() && #[trigger] before[k]@ == p;
                        let i = if k < at {
                            k
                        } else {
                            k - 1
                        };
                        assert(after[i]@ == p);
                    }
                }
                assert(self.set() =~= old(self).set().remove(path@));
                assert forall|i: int, j: int| 0 <= i < j < after.len() implies #[trigger] self.paths@[i]@ != #[trigger] self.paths@[j]@ by {
                    let k = if i < at {
                        i
                    } else {
                        i + 1
                    };
                    let l = if j < at {
                        j
                    } else {
                        j + 1
                    };
                    assert(before[k] == after[i]);
                    assert(before[l] == after[j]);
                }
            }
        } else {
            assert(old(self).set().remove(path@) =~= old(self).set());
        }
    }
}

/// Applies a signal: motion goes to the pointer, and a key asks for an effect, which
/// `pointer::emission` then puts at its position.
pub fn handle_signal(signal: InputSignal, pointer: &mut Pointer) -> (emit: Option<EmitKind>)
    requires
        old(pointer).well_formed(),
    ensures
        final(pointer).well_formed(),
        signal matches InputSignal::Motion { dx, dy } ==> emit is None && *final(pointer)
            == old(pointer).moved_by(dx, dy),
        signal matches InputSignal::Key(class) ==> emit == class.effect() && *final(pointer)
            == *old(pointer),
{
    match signal {
        InputSignal::Motion { dx, dy } => {
            pointer.on_motion(dx, dy);
            None
        },
        InputSignal::Key(class) => class.emit_kind(),
    }
}

/// Every signal of a device is a key of a keyboard that has an effect, or motion of a pointer
/// along one axis.
pub proof fn signals_have_an_effect(
    events: Seq<RawEvent>,
    keyboard: bool,
    pointer: bool,
    i: int,
)
    requires
        0 <= i < signals_of(events, keyboard, pointer).len(),
    ensures
        match signals_of(events, keyboard, pointer)[i] {
            InputSignal::Key(class) => keyboard && class.effect() is Some,
            InputSignal::Motion { dx, dy } => pointer && (dx == 0 || dy == 0),
        },
    decreases events.len(),
{
    let earlier = signals_of(events.drop_last(), keyboard, pointer);
    if i < earlier.len() {
        signals_have_an_effect(events.drop_last(), keyboard, pointer, i);
    }
}

/// A key that is neither pressed nor repeating, such as one that is released, sets nothing off.
pub proof fn releases_are_silent(code: u16, value: i32, keyboard: bool, pointer: bool)
    requires
        value != KEY_PRESSED,
        value != KEY_REPEATED,
    ensures
        signal_of(RawEvent { kind: EV_KEY, code, value }, keyboard, pointer) is None,
{
}

/// Reading in batches makes no difference.
pub proof fn batches_add_up(
    first: Seq<RawEvent>,
    second: Seq<RawEvent>,
    keyboard: bool,
    pointer: bool,
)
    ensures
        signals_of(first + second, keyboard, pointer) == signals_of(first, keyboard, pointer)
            + signals_of(second, keyboard, pointer),
    decreases second.len(),
{
    if second.len() == 0 {
        assert(first + second == first);
    } else {
        assert((first + second).drop_last() == first + second.drop_last());
        batches_add_up(first, second.drop_last(), keyboard, pointer);
        assert((first + second).last() == second.last());
    }
}

/// Backspace and delete are the keys that delete. Buttons, which come after all keys, and the
/// modifiers and locks are ignored. Every other key types.
pub proof fn every_other_key_types(code: u16)
    ensures
        class_of(code) == KeyClass::Delete <==> code == KEY_BACKSPACE || code == KEY_DELETE,
        class_of(code) == KeyClass::Ignore <==> {
            ||| code >= 0x100
            ||| code == KEY_LEFTSHIFT || code == KEY_RIGHTSHIFT
            ||| code == KEY_LEFTCTRL || code == KEY_RIGHTCTRL
            ||| code == KEY_LEFTALT || code == KEY_RIGHTALT
            ||| code == KEY_LEFTMETA || code == KEY_RIGHTMETA
            ||| code == KEY_CAPSLOCK || code == KEY_NUMLOCK
            ||| code == KEY_SCROLLLOCK || code == KEY_COMPOSE
        },
{
}

/// A key of a keyboard sends its class when it is pressed and when it repeats, unless it is to be
/// ignored; an axis of a pointer sends just the distance that it reports. Nothing else sends
/// anything.
pub proof fn a_signal_tells_its_event(event: RawEvent, keyboard: bool, pointer: bool)
    ensures
        ({
            let signal = signal_of(event, keyboard, pointer);
            let held = event.value == 1 || event.value == 2;
            let class = class_of(event.code);
            &&& event.kind == EV_KEY && keyboard && held && class != KeyClass::Ignore ==> signal
                == Some(InputSignal::Key(class))
            &&& event.kind == EV_REL && pointer && event.code == REL_X ==> signal == Some(
                InputSignal::Motion { dx: event.value, dy: 0 },
            )
            &&& event.kind == EV_REL && pointer && event.code == REL_Y ==> signal == Some(
                InputSignal::Motion { dx: 0, dy: event.value },
            )
            &&& signal is Some ==> {
                ||| event.kind == EV_KEY && keyboard && held && class != KeyClass::Ignore
                ||| event.kind == EV_REL && pointer && (event.code == REL_X || event.code == REL_Y)
            }
        }),
{
}

/// A single event sends its own signal, if any, and no event sends nothing.
pub proof fn a_batch_of_one_sends_its_signal(event: RawEvent, keyboard: bool, pointer: bool)
    ensures
        signals_of(Seq::empty(), keyboard, pointer) == Seq::<InputSignal>::empty(),
        signals_of(seq![event], keyboard, pointer) == match signal_of(event, keyboard, pointer) {
            Some(signal) => seq![signal],
            None => Seq::empty(),
        },
{
    let one = seq![event];
    assert(one.drop_last() == Seq::<RawEvent>::empty());
    assert(one.last() == event);
    assert(signals_of(one.drop_last(), keyboard, pointer) == Seq::<InputSignal>::empty());
}

/// A device that lacks any of the keys A, Z and space is no keyboard, and one without a horizontal
/// axis no pointer; what a device has besides makes no difference.
pub proof fn a_keyboard_has_letters_and_space(
    keys: Option<&evdev::AttributeSetRef<evdev::KeyCode>>,
    keyboard: bool,
    axes: Option<&evdev::AttributeSetRef<evdev::RelativeAxisCode>>,
    pointer: bool,
)
    requires
        call_ensures(is_keyboard, (keys,), keyboard),
        call_ensures(is_pointer, (axes,), pointer),
    ensures
        keys is None ==> !keyboard,
        keys matches Some(k) ==> (keyboard <==> set![KEY_A, KEY_Z, KEY_SPACE].subset_of(
            key_codes(k),
        )),
        axes is None ==> !pointer,
        axes matches Some(a) ==> (pointer <==> axis_codes(a).contains(REL_X)),
{
}

/// The active devices are exactly those whose paths are listed, byte for byte.
pub proof fn exactly_the_listed_devices_are_active(devices: ActiveDevices, path: Seq<u8>, i: int)
    ensures
        0 <= i < devices.paths@.len() ==> devices.set().contains(devices.paths@[i]@),
        devices.set().contains(path) ==> exists|j: int|
            0 <= j < devices.paths@.len() && #[trigger] devices.paths@[j]@ == path,
{
}

} // verus!
