//! Arcade-style digital input (left, right, thrust, fire) and the tracker
//! that turns a stream of UEFI keypress events, which carry no key-up, into
//! held-key state: a key counts as held for a grace period after each of
//! its keystrokes, so typematic repeats keep it held.
use vstd::prelude::*;

use crate::keys::{Key, CHAR_SPACE, SCAN_LEFT, SCAN_RIGHT, SCAN_UP};

verus! {

/// A snapshot of which of the four digital inputs are currently held.
#[derive(Debug, Clone, Copy, PartialEq, Eq, Structural)]
pub struct InputState {
    pub left: bool,
    pub right: bool,
    pub thrust: bool,
    pub fire: bool,
}

/// No input held.
pub open spec fn idle() -> InputState {
    InputState { left: false, right: false, thrust: false, fire: false }
}

impl Default for InputState {
    fn default() -> (r: Self)
        ensures
            r == idle(),
    {
        InputState { left: false, right: false, thrust: false, fire: false }
    }
}

/// Something that can be polled once per game tick for the current
/// [`InputState`].
pub trait InputSource {
    /// The source can be polled once more.
    spec fn pollable(&self) -> bool;

    fn poll(&mut self) -> InputState
        requires
            old(self).pollable(),
    ;
}

/// How many [`UefiInput::poll`] calls after its most recent keystroke a
/// direction or thrust key stays "held" for: the keystroke sets a deadline
/// this many ticks ahead, and every poll up to and including the deadline
/// reports the key as held. A held key keeps producing typematic repeat
/// events, so "still getting events" approximates "still held"; at a 16 ms
/// tick this is about 180 ms of grace.
pub const HOLD_GRACE_TICKS: u32 = 11;

/// Tracks held-key state from a stream of UEFI keypress events.
///
/// Only the arrows and the space bar are recognised; any other key is left
/// for the caller to act on.
pub struct UefiInput {
    left_until: u32,
    right_until: u32,
    thrust_until: u32,
    fire_pressed: bool,
    ticks: u32,
}

impl UefiInput {
    /// Last tick at which left counts as held.
    pub closed spec fn left_until(self) -> u32 {
        self.left_until
    }

    /// Last tick at which right counts as held.
    pub closed spec fn right_until(self) -> u32 {
        self.right_until
    }

    /// Last tick at which thrust counts as held.
    pub closed spec fn thrust_until(self) -> u32 {
        self.thrust_until
    }

    /// A fire keystroke arrived that no poll has reported yet.
    pub closed spec fn fire_pressed(self) -> bool {
        self.fire_pressed
    }

    /// Number of polls so far.
    pub closed spec fn ticks(self) -> u32 {
        self.ticks
    }

    /// Two trackers in the same state.
    pub open spec fn same(self, other: UefiInput) -> bool {
        &&& self.left_until() == other.left_until()
        &&& self.right_until() == other.right_until()
        &&& self.thrust_until() == other.thrust_until()
        &&& self.fire_pressed() == other.fire_pressed()
        &&& self.ticks() == other.ticks()
    }

    /// What the next poll reports.
    pub open spec fn reading(self) -> InputState {
        let t = self.ticks() + 1;
        InputState {
            left: t <= self.left_until(),
            right: t <= self.right_until(),
            thrust: t <= self.thrust_until(),
            fire: self.fire_pressed(),
        }
    }

    /// The tracker after one poll.
    pub open spec fn polled(self, after: UefiInput) -> bool {
        &&& after.ticks() == self.ticks() + 1
        &&& after.left_until() == self.left_until()
        &&& after.right_until() == self.right_until()
        &&& after.thrust_until() == self.thrust_until()
        &&& !after.fire_pressed()
    }

    /// The tracker after the keystroke `key`.
    pub open spec fn keyed(self, key: Key, after: UefiInput) -> bool {
        let deadline = self.ticks() + HOLD_GRACE_TICKS;
        &&& after.ticks() == self.ticks()
        &&& after.left_until() == (if key == Key::Special(SCAN_LEFT) { deadline } else { self.left_until() as int })
        &&& after.right_until() == (if key == Key::Special(SCAN_RIGHT) { deadline } else { self.right_until() as int })
        &&& after.thrust_until() == (if key == Key::Special(SCAN_UP) { deadline } else { self.thrust_until() as int })
        &&& after.fire_pressed() == (key == Key::Printable(CHAR_SPACE) || self.fire_pressed())
    }

    /// A fresh tracker: nothing held, no ticks yet.
    pub fn new() -> (r: Self)
        ensures
            r.ticks() == 0,
            r.left_until() == 0,
            r.right_until() == 0,
            r.thrust_until() == 0,
            !r.fire_pressed(),
    {
        UefiInput { left_until: 0, right_until: 0, thrust_until: 0, fire_pressed: false, ticks: 0 }
    }

    /// Number of polls so far.
    pub fn tick_count(&self) -> (r: u32)
        ensures
            r == self.ticks(),
    {
        self.ticks
    }

    /// Feed every keypress event here, in event order. Left, right and up
    /// arrows push their key's deadline to [`HOLD_GRACE_TICKS`] ticks from
    /// now; the space bar latches a fire press; anything else is ignored.
    pub fn key_event(&mut self, key: Key)
        requires
            old(self).ticks() + HOLD_GRACE_TICKS <= u32::MAX,
        ensures
            old(self).keyed(key, *final(self)),
    {
        match key {
            Key::Special(code) => {
                if code == SCAN_LEFT {
                    self.left_until = self.ticks + HOLD_GRACE_TICKS;
                } else if code == SCAN_RIGHT {
                    self.right_until = self.ticks + HOLD_GRACE_TICKS;
                } else if code == SCAN_UP {
                    self.thrust_until = self.ticks + HOLD_GRACE_TICKS;
                }
            },
            Key::Printable(c) => {
                if c == CHAR_SPACE {
                    self.fire_pressed = true;
                }
            },
        }
    }
}

impl InputSource for UefiInput {
    /// The tick counter has room for one more poll.
    open spec fn pollable(&self) -> bool {
        self.ticks() < u32::MAX
    }

    /// Advances the tick counter and reads off the held state. `fire` is
    /// edge-triggered: reading it here also clears it, so each fire
    /// keypress is consumed by exactly one poll.
    fn poll(&mut self) -> (r: InputState)
        ensures
            r == old(self).reading(),
            old(self).polled(*final(self)),
    {
        self.ticks = self.ticks + 1;
        let fire = self.fire_pressed;
        self.fire_pressed = false;
        InputState {
            left: self.ticks <= self.left_until,
            right: self.ticks <= self.right_until,
            thrust: self.ticks <= self.thrust_until,
            fire,
        }
    }
}

/// `states` is what a tracker goes through over consecutive polls with no
/// keystroke between them.
pub open spec fn poll_run(states: Seq<UefiInput>) -> bool {
    forall|i: int| 0 <= i < states.len() - 1 ==> (#[trigger] states[i]).polled(states[i + 1])
}

/// Each fire keystroke is reported by exactly one poll: the poll right
/// after the space bar reports fire, and the poll after that does not
/// (unless the space bar was pressed again in between).
pub proof fn lemma_fire_reported_once(s0: UefiInput, s1: UefiInput, s2: UefiInput)
    requires
        s0.keyed(Key::Printable(CHAR_SPACE), s1),
        s1.polled(s2),
    ensures
        s1.reading().fire,
        !s2.reading().fire,
{
}

/// `states` is what a tracker goes through over the keystrokes `keys`,
/// with no poll between them.
pub open spec fn key_run(states: Seq<UefiInput>, keys: Seq<Key>) -> bool {
    &&& states.len() == keys.len() + 1
    &&& forall|i: int| 0 <= i < keys.len() ==> (#[trigger] states[i]).keyed(keys[i], states[i + 1])
}

/// Fire is edge-triggered per poll: after a poll, the next poll reports
/// fire exactly when the space bar was among the keystrokes in between,
/// however often it was pressed, and the poll after that reports it only if
/// it was pressed again.
pub proof fn lemma_fire_per_poll(
    before: UefiInput,
    states: Seq<UefiInput>,
    keys: Seq<Key>,
    after: UefiInput,
)
    requires
        before.polled(states[0]),
        key_run(states, keys),
        states.last().polled(after),
    ensures
        states.last().reading().fire <==> keys.contains(Key::Printable(CHAR_SPACE)),
        !after.reading().fire,
{
    lemma_fire_keys(states, keys, keys.len() as int);
    assert(states.last() == states[keys.len() as int]);
    if keys.contains(Key::Printable(CHAR_SPACE)) {
        let k = choose|k: int| 0 <= k < keys.len() && #[trigger] keys[k] == Key::Printable(CHAR_SPACE);
        assert(keys.take(keys.len() as int)[k] == keys[k]);
    }
    if keys.take(keys.len() as int).contains(Key::Printable(CHAR_SPACE)) {
        let k = choose|k: int| 0 <= k < keys.len() && #[trigger] keys.take(keys.len() as int)[k] == Key::Printable(CHAR_SPACE);
        assert(keys[k] == Key::Printable(CHAR_SPACE));
    }
}

/// After the first `n` keystrokes of a run that started right after a poll,
/// a fire is latched exactly when one of them was the space bar.
proof fn lemma_fire_keys(states: Seq<UefiInput>, keys: Seq<Key>, n: int)
    requires
        !states[0].fire_pressed(),
        key_run(states, keys),
        0 <= n <= keys.len(),
    ensures
        states[n].fire_pressed() <==> keys.take(n).contains(Key::Printable(CHAR_SPACE)),
    decreases n,
{
    if n > 0 {
        lemma_fire_keys(states, keys, n - 1);
        assert(states[n - 1].keyed(keys[n - 1], states[n]));
        assert(keys.take(n) =~= keys.take(n - 1).push(keys[n - 1]));
        assert(keys.take(n)[n - 1] == keys[n - 1]);
        if keys.take(n - 1).contains(Key::Printable(CHAR_SPACE)) {
            let k = choose|k: int| 0 <= k < n - 1 && #[trigger] keys.take(n - 1)[k] == Key::Printable(CHAR_SPACE);
            assert(keys.take(n)[k] == Key::Printable(CHAR_SPACE));
        }
        if keys.take(n).contains(Key::Printable(CHAR_SPACE)) {
            let k = choose|k: int| 0 <= k < n && #[trigger] keys.take(n)[k] == Key::Printable(CHAR_SPACE);
            if k < n - 1 {
                assert(keys.take(n - 1)[k] == Key::Printable(CHAR_SPACE));
            }
        }
    } else {
        assert(keys.take(0) =~= Seq::<Key>::empty());
    }
}

/// After a left, right or up keystroke, the next `HOLD_GRACE_TICKS` polls
/// report that key as held and every poll after them reports it released,
/// as long as no further keystroke arrives: the `k`-th poll (counting from
/// zero) reports the key held exactly when `k < HOLD_GRACE_TICKS`.
pub proof fn lemma_hold_grace(s0: UefiInput, key: Key, states: Seq<UefiInput>, k: int)
    requires
        key == Key::Special(SCAN_LEFT) || key == Key::Special(SCAN_RIGHT) || key == Key::Special(SCAN_UP),
        states.len() > 0,
        s0.keyed(key, states[0]),
        poll_run(states),
        0 <= k < states.len(),
    ensures
        key == Key::Special(SCAN_LEFT) ==> (states[k].reading().left <==> k < HOLD_GRACE_TICKS),
        key == Key::Special(SCAN_RIGHT) ==> (states[k].reading().right <==> k < HOLD_GRACE_TICKS),
        key == Key::Special(SCAN_UP) ==> (states[k].reading().thrust <==> k < HOLD_GRACE_TICKS),
{
    lemma_poll_run_steps(states, k);
}

/// Over a run of polls the deadlines stay put and the tick counter counts
/// the polls.
proof fn lemma_poll_run_steps(states: Seq<UefiInput>, k: int)
    requires
        poll_run(states),
        0 <= k < states.len(),
    ensures
        states[k].ticks() == states[0].ticks() + k,
        states[k].left_until() == states[0].left_until(),
        states[k].right_until() == states[0].right_until(),
        states[k].thrust_until() == states[0].thrust_until(),
    decreases k,
{
    if k > 0 {
        lemma_poll_run_steps(states, k - 1);
        assert(states[k - 1].polled(states[k]));
    }
}

/// Keys other than the arrows left, right and up and the space bar leave
/// the tracker as it was.
pub proof fn lemma_other_keys_ignored(s0: UefiInput, key: Key, s1: UefiInput)
    requires
        key != Key::Special(SCAN_LEFT),
        key != Key::Special(SCAN_RIGHT),
        key != Key::Special(SCAN_UP),
        key != Key::Printable(CHAR_SPACE),
        s0.keyed(key, s1),
    ensures
        s0.same(s1),
{
}

/// The desktop keyboard keys the game reads, as the window reports them.
#[derive(Debug, Clone, Copy, PartialEq, Eq, Structural)]
pub struct KeyboardReading {
    pub left: bool,
    pub right: bool,
    pub up: bool,
    pub space: bool,
}

/// The gamepad buttons the game reads.
#[derive(Debug, Clone, Copy, PartialEq, Eq, Structural)]
pub struct PadReading {
    pub dpad_left: bool,
    pub dpad_right: bool,
    pub dpad_up: bool,
    pub south: bool,
    pub east: bool,
    pub right_trigger2: bool,
}

/// Keyboard and (first) gamepad OR'd together, so either alone is enough
/// to play and an idle pad never hides the keyboard: d-pad left/right
/// steer, d-pad up or the south button thrust, and the east button or the
/// right trigger fire.
pub open spec fn spec_desktop_state(keys: KeyboardReading, pad: Option<PadReading>) -> InputState {
    match pad {
        None => InputState { left: keys.left, right: keys.right, thrust: keys.up, fire: keys.space },
        Some(p) => InputState {
            left: keys.left || p.dpad_left,
            right: keys.right || p.dpad_right,
            thrust: keys.up || p.dpad_up || p.south,
            fire: keys.space || p.east || p.right_trigger2,
        },
    }
}

/// Combines a keyboard reading and, when a gamepad is connected, its
/// reading into one input snapshot.
pub fn desktop_state(keys: KeyboardReading, pad: Option<PadReading>) -> (r: InputState)
    ensures
        r == spec_desktop_state(keys, pad),
{
    let mut input = InputState::default();
    input.left = input.left || keys.left;
    input.right = input.right || keys.right;
    input.thrust = input.thrust || keys.up;
    input.fire = input.fire || keys.space;
    if let Some(p) = pad {
        input.left = input.left || p.dpad_left;
        input.right = input.right || p.dpad_right;
        input.thrust = input.thrust || p.dpad_up || p.south;
        input.fire = input.fire || p.east || p.right_trigger2;
    }
    input
}

/// Keyboard and pad are OR'd input by input, so a pad never hides the
/// keyboard and either alone is enough: with no pad each input is its key
/// (Left, Right, Up, Space); with a pad each input is also on when its pad
/// controls are (d-pad left; d-pad right; d-pad up or south; east or the
/// right trigger), and an idle pad changes nothing.
pub proof fn lemma_desktop_inputs_combine(keys: KeyboardReading, pad: Option<PadReading>)
    ensures
        spec_desktop_state(keys, pad).left == (keys.left || (pad matches Some(p) && p.dpad_left)),
        spec_desktop_state(keys, pad).right == (keys.right || (pad matches Some(p) && p.dpad_right)),
        spec_desktop_state(keys, pad).thrust == (keys.up || (pad matches Some(p) && (p.dpad_up || p.south))),
        spec_desktop_state(keys, pad).fire == (keys.space || (pad matches Some(p) && (p.east || p.right_trigger2))),
        pad matches Some(p) && !p.dpad_left && !p.dpad_right && !p.dpad_up && !p.south && !p.east && !p.right_trigger2
            ==> spec_desktop_state(keys, pad) == spec_desktop_state(keys, None),
{
}

} // verus!
