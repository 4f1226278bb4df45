//! The pointer as the pipeline drives it: strokes to move it and to press
//! and release one of its buttons, and what the keyboard state says.
//!
//! Nothing here touches a device: the functions make the strokes, in the
//! numbers that the input driver takes, and the caller sends them.

use crate::aim::trunc_div;
use crate::coord::Coord;
use vstd::prelude::*;

verus! {

pub const VK_LBUTTON: u16 = 1;

pub const VK_RBUTTON: u16 = 2;

pub const VK_MBUTTON: u16 = 4;

pub const VK_XBUTTON1: u16 = 5;

pub const VK_XBUTTON2: u16 = 6;

pub const LEFT_BUTTON_DOWN: u16 = 1;

pub const LEFT_BUTTON_UP: u16 = 2;

pub const RIGHT_BUTTON_DOWN: u16 = 4;

pub const RIGHT_BUTTON_UP: u16 = 8;

pub const MIDDLE_BUTTON_DOWN: u16 = 16;

pub const MIDDLE_BUTTON_UP: u16 = 32;

pub const BUTTON_4_DOWN: u16 = 64;

pub const BUTTON_4_UP: u16 = 128;

pub const BUTTON_5_DOWN: u16 = 256;

pub const BUTTON_5_UP: u16 = 512;

/// The state of a stroke that only moves the pointer.
pub const MOVE: u16 = 4096;

/// The flag of a movement relative to where the pointer is.
pub const MOVE_RELATIVE: u16 = 0;

/// What `set_click_keycode` says of a key code that names no mouse button.
pub const ERR_INVALID_CLICK_KEYCODE: &'static str = "Invalid click keycode";

/// What `get_any_pressed_key` says of a keyboard state that could not be read.
pub const ERR_KEYBOARD_STATE: &'static str = "GetKeyboardState failed";

/// One mouse event, in the fields that the input driver takes.
#[derive(Debug, Clone, Copy, PartialEq, Eq, Structural)]
pub struct Stroke {
    pub state: u16,
    pub flags: u16,
    pub rolling: i16,
    pub x: i32,
    pub y: i32,
    pub information: u32,
}

impl Stroke {
    /// The stroke that says nothing.
    pub open spec fn empty() -> Stroke {
        Stroke { state: 0, flags: 0, rolling: 0, x: 0, y: 0, information: 0 }
    }

    /// The stroke that says nothing.
    pub fn default() -> (s: Stroke)
        ensures
            s == Stroke::empty(),
    {
        Stroke { state: 0, flags: 0, rolling: 0, x: 0, y: 0, information: 0 }
    }

    /// The stroke that moves the pointer by `pos` from where it is.
    pub open spec fn relative_move(pos: Coord<i32>) -> Stroke {
        Stroke { state: MOVE, flags: MOVE_RELATIVE, rolling: 0, x: pos.x, y: pos.y, information: 0 }
    }

    /// The stroke that changes the buttons to `state` and leaves the pointer
    /// where it is.
    pub open spec fn button(state: u16) -> Stroke {
        Stroke { state, flags: 0, rolling: 0, x: 0, y: 0, information: 0 }
    }
}

/// A stroke and how long to hold still after it, in nanoseconds.
#[derive(Debug, Clone, Copy, PartialEq, Eq, Structural)]
pub struct TimedStroke {
    pub stroke: Stroke,
    pub sleep_nanos: u64,
}

/// The button states that press and release the button named by the key
/// code `keycode`, if it names one.
pub open spec fn button_states(keycode: u16) -> Option<(u16, u16)> {
    if keycode == VK_LBUTTON {
        Some((LEFT_BUTTON_DOWN, LEFT_BUTTON_UP))
    } else if keycode == VK_RBUTTON {
        Some((RIGHT_BUTTON_DOWN, RIGHT_BUTTON_UP))
    } else if keycode == VK_MBUTTON {
        Some((MIDDLE_BUTTON_DOWN, MIDDLE_BUTTON_UP))
    } else if keycode == VK_XBUTTON1 {
        Some((BUTTON_4_DOWN, BUTTON_4_UP))
    } else if keycode == VK_XBUTTON2 {
        Some((BUTTON_5_DOWN, BUTTON_5_UP))
    } else {
        None
    }
}

/// The pointer device that strokes go to, and the button that clicks press.
#[derive(Debug, Clone, Copy, PartialEq, Eq, Structural)]
pub struct InterceptionState {
    pub mouse_dev: i32,
    pub click_down: u16,
    pub click_up: u16,
}

impl InterceptionState {
    /// A channel to the device `mouse_dev` whose clicks press the left
    /// button.
    pub open spec fn new_spec(mouse_dev: i32) -> InterceptionState {
        InterceptionState { mouse_dev, click_down: LEFT_BUTTON_DOWN, click_up: LEFT_BUTTON_UP }
    }

    /// A channel to the device `mouse_dev` whose clicks press the left
    /// button.
    pub fn new(mouse_dev: i32) -> (state: Self)
        ensures
            state == Self::new_spec(mouse_dev),
    {
        InterceptionState { mouse_dev, click_down: LEFT_BUTTON_DOWN, click_up: LEFT_BUTTON_UP }
    }

    /// The stroke that presses the bound button.
    pub fn click_down(&self) -> (stroke: Stroke)
        ensures
            stroke == Stroke::button(self.click_down),
    {
        let mut stroke = Stroke::default();
        stroke.state = self.click_down;
        stroke
    }

    /// The stroke that releases the bound button.
    pub fn click_up(&self) -> (stroke: Stroke)
        ensures
            stroke == Stroke::button(self.click_up),
    {
        let mut stroke = Stroke::default();
        stroke.state = self.click_up;
        stroke
    }

    /// Binds clicks to the mouse button that `keycode` names. A key code
    /// that names none is refused, and the binding stays as it was.
    pub fn set_click_keycode(&mut self, keycode: u16) -> (res: Result<(), &'static str>)
        ensures
            final(self).mouse_dev == old(self).mouse_dev,
            match button_states(keycode) {
                Some((down, up)) => res is Ok && final(self).click_down == down && final(self).click_up == up,
                None => res == Err::<(), &'static str>(ERR_INVALID_CLICK_KEYCODE) && *final(self)
                    == *old(self),
            },
    {
        let (click_down, click_up) = if keycode == VK_LBUTTON {
            (LEFT_BUTTON_DOWN, LEFT_BUTTON_UP)
        } else if keycode == VK_RBUTTON {
            (RIGHT_BUTTON_DOWN, RIGHT_BUTTON_UP)
        } else if keycode == VK_MBUTTON {
            (MIDDLE_BUTTON_DOWN, MIDDLE_BUTTON_UP)
        } else if keycode == VK_XBUTTON1 {
            (BUTTON_4_DOWN, BUTTON_4_UP)
        } else if keycode == VK_XBUTTON2 {
            (BUTTON_5_DOWN, BUTTON_5_UP)
        } else {
            return Err(ERR_INVALID_CLICK_KEYCODE);
        };
        self.click_down = click_down;
        self.click_up = click_up;
        Ok(())
    }

    /// The stroke that moves the pointer by `pos` from where it is.
    pub fn move_mouse_relative(&self, pos: Coord<i32>) -> (stroke: Stroke)
        ensures
            stroke == Stroke::relative_move(pos),
    {
        Stroke {
            state: MOVE,
            flags: MOVE_RELATIVE,
            rolling: 0,
            x: pos.x,
            y: pos.y,
            information: 0,
        }
    }

    /// A movement by `pos` spread over `dur_micros` microseconds: `n_chunks`
    /// moves, each followed by an equal share of the time. Every move but
    /// the last is the `n_chunks`-th part of `pos`, rounded towards zero on
    /// either axis; the last takes what is left, so that together the moves
    /// come to `pos` exactly.
    pub fn move_mouse_over_time(&self, dur_micros: u32, n_chunks: u32, pos: Coord<i32>) -> (plan:
        Vec<TimedStroke>)
        requires
            0 < n_chunks <= i32::MAX,
        ensures
            plan@.len() == n_chunks,
            forall|i: int|
                0 <= i < plan@.len() ==> #[trigger] plan@[i] == chunk(dur_micros, n_chunks, pos, i),
            moved_x(plan@) == pos.x,
            moved_y(plan@) == pos.y,
    {
        let sleep_dur: u64 = (dur_micros as u64 * 1000) / n_chunks as u64;
        let chunked_x = div_towards_zero(pos.x, n_chunks);
        let chunked_y = div_towards_zero(pos.y, n_chunks);
        proof {
            lemma_parts(pos.x as int, n_chunks as int);
            lemma_parts(pos.y as int, n_chunks as int);
        }
        let last_x: i32 = (pos.x as i64 - (n_chunks as i64 - 1) * chunked_x as i64) as i32;
        let last_y: i32 = (pos.y as i64 - (n_chunks as i64 - 1) * chunked_y as i64) as i32;
        let mut plan: Vec<TimedStroke> = Vec::new();
        let mut i: u32 = 0;
        while i < n_chunks
            invariant
                0 < n_chunks <= i32::MAX,
                i <= n_chunks,
                plan@.len() == i,
                sleep_dur == (dur_micros * 1000) / (n_chunks as int),
                chunked_x == trunc_div(pos.x as int, n_chunks as int),
                chunked_y == trunc_div(pos.y as int, n_chunks as int),
                last_x == part(pos.x as int, n_chunks as int, n_chunks - 1),
                last_y == part(pos.y as int, n_chunks as int, n_chunks - 1),
                forall|k: int|
                    0 <= k < plan@.len() ==> #[trigger] plan@[k] == chunk(
                        dur_micros,
                        n_chunks,
                        pos,
                        k,
                    ),
                moved_x(plan@) == parts_sum(pos.x as int, n_chunks as int, i as nat),
                moved_y(plan@) == parts_sum(pos.y as int, n_chunks as int, i as nat),
            decreases n_chunks - i,
        {
            let step = if i < n_chunks - 1 {
                Coord::new(chunked_x, chunked_y)
            } else {
                Coord::new(last_x, last_y)
            };
            let stroke = self.move_mouse_relative(step);
            let ghost before = plan@;
            plan.push(TimedStroke { stroke, sleep_nanos: sleep_dur });
            proof {
                assert(plan@.drop_last() =~= before);
            }
            i += 1;
        }
        plan
    }
}

/// Part `i` of a length `v` that is moved over in `n` parts: the `n`-th part
/// of `v`, rounded towards zero, but for the last part, which is what the
/// others leave of `v`.
pub open spec fn part(v: int, n: int, i: int) -> int {
    if i < n - 1 {
        trunc_div(v, n)
    } else {
        v - (n - 1) * trunc_div(v, n)
    }
}

/// The first `upto` parts of a length `v` that is moved over in `n` parts,
/// added up.
pub open spec fn parts_sum(v: int, n: int, upto: nat) -> int
    decreases upto,
{
    if upto == 0 {
        0
    } else {
        parts_sum(v, n, (upto - 1) as nat) + part(v, n, upto - 1)
    }
}

/// How far the strokes of a plan move the pointer to the right, all in all.
pub open spec fn moved_x(plan: Seq<TimedStroke>) -> int
    decreases plan.len(),
{
    if plan.len() == 0 {
        0
    } else {
        moved_x(plan.drop_last()) + plan.last().stroke.x
    }
}

/// How far the strokes of a plan move the pointer down, all in all.
pub open spec fn moved_y(plan: Seq<TimedStroke>) -> int
    decreases plan.len(),
{
    if plan.len() == 0 {
        0
    } else {
        moved_y(plan.drop_last()) + plan.last().stroke.y
    }
}

/// Move `i` of a movement by `pos` over `dur_micros` microseconds in
/// `n_chunks` moves.
pub open spec fn chunk(dur_micros: u32, n_chunks: u32, pos: Coord<i32>, i: int) -> TimedStroke {
    TimedStroke {
        stroke: Stroke::relative_move(
            Coord {
                x: part(pos.x as int, n_chunks as int, i) as i32,
                y: part(pos.y as int, n_chunks as int, i) as i32,
            },
        ),
        sleep_nanos: ((dur_micros * 1000) / (n_chunks as int)) as u64,
    }
}

/// `v` divided by `n`, rounded towards zero.
fn div_towards_zero(v: i32, n: u32) -> (q: i32)
    requires
        0 < n <= i32::MAX,
    ensures
        q == trunc_div(v as int, n as int),
{
    if v >= 0 {
        ((v as u32) / n) as i32
    } else {
        let m: u32 = (-(v as i64)) as u32;
        let q: u32 = m / n;
        assert(q <= m);
        -(q as i64) as i32
    }
}

/// The parts of a movement add up to the movement: the first parts are
/// equal and never overshoot, and the last part makes up for what rounding
/// left, which is less than the number of parts. No part is longer than
/// the movement or points the other way.
pub proof fn lemma_parts(v: int, n: int)
    requires
        n > 0,
    ensures
        parts_sum(v, n, n as nat) == v,
        v >= 0 ==> 0 <= trunc_div(v, n) <= part(v, n, n - 1) <= v && part(v, n, n - 1)
            < trunc_div(v, n) + n,
        v <= 0 ==> v <= part(v, n, n - 1) <= trunc_div(v, n) <= 0 && part(v, n, n - 1)
            > trunc_div(v, n) - n,
        v >= 0 ==> 0 <= (n - 1) * trunc_div(v, n) <= v,
        v <= 0 ==> v <= (n - 1) * trunc_div(v, n) <= 0,
{
    let q = trunc_div(v, n);
    if v >= 0 {
        vstd::arithmetic::div_mod::lemma_fundamental_div_mod(v, n);
        vstd::arithmetic::div_mod::lemma_mod_bound(v, n);
        assert(0 <= q && v - n * q == v % n && (n - 1) * q == n * q - q && 0 <= (n - 1) * q)
            by (nonlinear_arith)
            requires
                v == n * (v / n) + v % n,
                0 <= v % n,
                q == v / n,
                v >= 0,
                n > 0,
        ;
    } else {
        let m = -v;
        vstd::arithmetic::div_mod::lemma_fundamental_div_mod(m, n);
        vstd::arithmetic::div_mod::lemma_mod_bound(m, n);
        assert(q <= 0 && v - n * q == -(m % n) && (n - 1) * q == n * q - q && (n - 1) * q <= 0)
            by (nonlinear_arith)
            requires
                m == n * (m / n) + m % n,
                0 <= m % n,
                q == -(m / n),
                m == -v,
                m > 0,
                n > 0,
        ;
    }
    lemma_equal_parts(v, n, (n - 1) as nat);
    assert((n - 1) * q + (v - (n - 1) * q) == v);
}

/// Short of the last part, the parts are equal.
pub proof fn lemma_equal_parts(v: int, n: int, upto: nat)
    requires
        n > 0,
        upto <= n,
    ensures
        upto < n ==> parts_sum(v, n, upto) == upto * trunc_div(v, n),
    decreases upto,
{
    if 0 < upto < n {
        lemma_equal_parts(v, n, (upto - 1) as nat);
        assert(upto * trunc_div(v, n) == (upto - 1) * trunc_div(v, n) + trunc_div(v, n))
            by (nonlinear_arith);
    } else if upto == 0 {
        assert(0 * trunc_div(v, n) == 0);
    }
}

/// Whether waiting for a key to be released goes on: the key is down and the
/// time waited is short of the timeout.
pub fn keep_waiting(pressed: bool, waited_millis: u64, timeout_millis: u64) -> (wait: bool)
    ensures
        wait == (pressed && waited_millis < timeout_millis),
{
    pressed && waited_millis < timeout_millis
}

/// Whether the state byte of a key says that the key is down.
pub open spec fn is_down(key_state: u8) -> bool {
    key_state >= 128
}

/// The code of the first key that is down in a keyboard state of one byte
/// for each key code, if any is.
pub fn get_any_pressed_key(key_states: &[u8]) -> (res: Option<u16>)
    requires
        key_states@.len() <= 0x1_0000,
    ensures
        match res {
            Some(code) => code < key_states@.len() && is_down(key_states@[code as int])
                && forall|i: int| 0 <= i < code ==> !is_down(#[trigger] key_states@[i]),
            None => forall|i: int| 0 <= i < key_states@.len() ==> !is_down(#[trigger] key_states@[i]),
        },
{
    let mut i: usize = 0;
    while i < key_states.len()
        invariant
            i <= key_states@.len() <= 0x1_0000,
            forall|k: int| 0 <= k < i ==> !is_down(#[trigger] key_states@[k]),
        decreases key_states@.len() - i,
    {
        let key_state = key_states[i];
        assert(key_state >> 7 == 1 <==> key_state >= 128) by (bit_vector);
        if (key_state >> 7) == 1 {
            return Some(i as u16);
        }
        i += 1;
    }
    None
}

/// The name of the mouse button that `key_code` names, if it names one.
pub open spec fn mouse_name(key_code: u16) -> Option<Seq<char>> {
    if key_code == VK_LBUTTON {
        Some("Mouse1"@)
    } else if key_code == VK_RBUTTON {
        Some("Mouse2"@)
    } else if key_code == VK_MBUTTON {
        Some("Mouse3"@)
    } else if key_code == VK_XBUTTON1 {
        Some("Mouse4"@)
    } else if key_code == VK_XBUTTON2 {
        Some("Mouse5"@)
    } else {
        None
    }
}

/// The name of the mouse button that `key_code` names. The keyboard layout
/// knows no mouse buttons, so they are named here; every other key is named
/// by the layout, and there is nothing for it.
pub fn mouse_button_name(key_code: u16) -> (name: Option<String>)
    ensures
        match mouse_name(key_code) {
            Some(n) => name is Some && name.unwrap()@ == n,
            None => name is None,
        },
{
    if key_code == VK_LBUTTON {
        Some("Mouse1".to_string())
    } else if key_code == VK_RBUTTON {
        Some("Mouse2".to_string())
    } else if key_code == VK_MBUTTON {
        Some("Mouse3".to_string())
    } else if key_code == VK_XBUTTON1 {
        Some("Mouse4".to_string())
    } else if key_code == VK_XBUTTON2 {
        Some("Mouse5".to_string())
    } else {
        None
    }
}

} // verus!
