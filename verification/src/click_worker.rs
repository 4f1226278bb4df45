//! The click worker, one decision at a time: it names what to do next, the
//! caller does it and hands back what came of it.
//!
//! The worker is in one of three modes, which a toggle key cycles through.
//! In the regular one it does nothing; in the automatic one it clicks for as
//! long as the autoclick key is down, holding and pausing for a random time
//! each; in the redirected one its button follows the autoclick key.

use crate::config::CfgKey;
use crate::config::Config;
use crate::input::InterceptionState;
use crate::input::Stroke;
use crate::pixel_bot::ThreadMsg;
use crate::rng::gen_range;
use rand::rngs::ThreadRng;
use vstd::prelude::*;

verus! {

/// How long the worker waits for the toggle key to come up, in milliseconds.
pub const TOGGLE_TIMEOUT_MILLIS: u64 = 500;

/// How long the worker rests between two looks at the control channel, in
/// nanoseconds.
pub const TICK_NANOS: u64 = 1_000_000;

/// What the worker takes from the configuration.
#[derive(Debug, Clone, Copy, PartialEq, Eq, Structural)]
pub struct ClickParams {
    pub autoclick_key: u16,
    pub toggle_autoclick_key: u16,
    pub fake_lmb_key: u16,
    pub max_sleep: u32,
    pub min_sleep: u32,
}

impl ClickParams {
    /// What `cfg` holds for the click worker.
    pub open spec fn of(cfg: Map<CfgKey, crate::config::ValType>) -> ClickParams {
        ClickParams {
            autoclick_key: cfg[CfgKey::AutoclickKeycode].keycode(),
            toggle_autoclick_key: cfg[CfgKey::ToggleAutoclickKeycode].keycode(),
            fake_lmb_key: cfg[CfgKey::FakeLmbKeycode].keycode(),
            max_sleep: cfg[CfgKey::MaxAutoclickSleepMs].number(),
            min_sleep: cfg[CfgKey::MinAutoclickSleepMs].number(),
        }
    }

    /// Reads out of `cfg` what the click worker takes from it.
    pub fn from_config(cfg: &Config) -> (params: ClickParams)
        requires
            cfg.wf(),
        ensures
            params == ClickParams::of(cfg@),
    {
        ClickParams {
            autoclick_key: cfg.get(CfgKey::AutoclickKeycode).into_keycode(),
            toggle_autoclick_key: cfg.get(CfgKey::ToggleAutoclickKeycode).into_keycode(),
            fake_lmb_key: cfg.get(CfgKey::FakeLmbKeycode).into_keycode(),
            max_sleep: cfg.get(CfgKey::MaxAutoclickSleepMs).into_bounded().val,
            min_sleep: cfg.get(CfgKey::MinAutoclickSleepMs).into_bounded().val,
        }
    }
}

/// What the worker does with the button.
#[derive(Debug, Clone, Copy, PartialEq, Eq, Structural)]
pub enum ClickMode {
    /// Nothing.
    Regular,
    /// Click again and again while the autoclick key is down.
    Auto,
    /// Hold the button down while the autoclick key is down; the flag says
    /// whether the button is down now.
    Redirected(bool),
}

impl ClickMode {
    /// The mode that the toggle key leads to.
    pub open spec fn next(self) -> ClickMode {
        match self {
            ClickMode::Regular => ClickMode::Auto,
            ClickMode::Auto => ClickMode::Redirected(false),
            ClickMode::Redirected(_) => ClickMode::Regular,
        }
    }

    /// Whether the button is left down by this mode.
    pub open spec fn holds_button(self) -> bool {
        self == ClickMode::Redirected(true)
    }

    /// The mode that the toggle key leads to, and whether the button must be
    /// released on the way because this mode holds it down.
    pub fn cycle(self) -> (out: (ClickMode, bool))
        ensures
            out.0 == self.next(),
            out.1 == self.holds_button(),
    {
        match self {
            ClickMode::Regular => (ClickMode::Auto, false),
            ClickMode::Auto => (ClickMode::Redirected(false), false),
            ClickMode::Redirected(is_pressed) => (ClickMode::Regular, is_pressed),
        }
    }
}

/// Three presses of the toggle key lead back to where the worker was, with
/// the button up.
pub proof fn lemma_modes_cycle(mode: ClickMode)
    ensures
        mode.next().next().next() == match mode {
            ClickMode::Redirected(_) => ClickMode::Redirected(false),
            m => m,
        },
        !mode.next().holds_button(),
{
}

/// What was found amiss in the parameters, to be logged.
#[derive(Debug, Clone, Copy, PartialEq, Eq, Structural)]
pub struct ConfigNotes {
    /// The key code for the button names no mouse button; the button that
    /// was bound before stays bound.
    pub invalid_button: bool,
    /// The longest sleep was shorter than the shortest; the two were
    /// swapped.
    pub swapped_sleeps: bool,
}

/// What the caller hands back to the worker.
#[derive(Debug, Clone, Copy, PartialEq, Eq, Structural)]
pub enum ClickEvent {
    /// What was asked for is done.
    Done,
    /// The parameters, as the configuration holds them now.
    Params(ClickParams),
    /// What was on the control channel, if anything.
    Control(Option<ThreadMsg>),
    /// Whether the key that was asked about is down.
    Key(bool),
}

/// What the worker has the caller do.
#[derive(Debug, Clone, Copy, PartialEq, Eq, Structural)]
pub enum ClickAction {
    /// Read the parameters out of the configuration; answer with `Params`.
    ReadConfig,
    /// Log what was found amiss in the parameters, if anything.
    Report(ConfigNotes),
    /// Rest for so many nanoseconds.
    Sleep(u64),
    /// Look at the control channel without waiting; answer with `Control`.
    PollControl,
    /// Ask whether the key is down; answer with `Key`.
    QueryKey(u16),
    /// Wait until the key is up, for so many milliseconds at most.
    WaitRelease(u16, u64),
    /// Send the stroke to the pointer device.
    Send(Stroke),
    /// End the worker.
    Exit,
}

/// What the worker waits for.
#[derive(Debug, Clone, Copy, PartialEq, Eq, Structural)]
pub enum ClickPhase {
    AwaitParams,
    AwaitReport,
    AwaitTick,
    AwaitControl,
    AwaitToggleKey,
    /// The release that ends a redirected press was sent.
    AwaitToggleLift,
    AwaitRelease,
    AwaitAutoKey,
    /// The press of a click was sent; the click is held and then paused
    /// after for so many milliseconds.
    AwaitPress(u32, u32),
    /// The click is being held; it is paused after for so many milliseconds.
    AwaitHold(u32),
    /// The release of a click was sent.
    AwaitLift(u32),
    AwaitPause,
    AwaitMirrorKey,
    AwaitMirror,
    Stopped,
}

/// The click worker between two steps.
#[derive(Debug)]
pub struct ClickWorker {
    pub mode: ClickMode,
    pub channel: InterceptionState,
    pub autoclick_key: u16,
    pub toggle_key: u16,
    pub min_sleep: u32,
    pub max_sleep: u32,
    pub phase: ClickPhase,
    pub rng: ThreadRng,
}

/// Whether `sleep` may be drawn for a click between `min_sleep` and
/// `max_sleep`: any time from the shortest up to the longest, the longest
/// itself left out; and where that leaves no time at all, the longest.
pub open spec fn sleep_in_range(min_sleep: u32, max_sleep: u32, sleep: u32) -> bool {
    if min_sleep < max_sleep {
        min_sleep <= sleep < max_sleep
    } else {
        sleep == max_sleep
    }
}

/// Draws a time to hold or to pause a click for.
pub fn draw_sleep(rng: &mut ThreadRng, min_sleep: u32, max_sleep: u32) -> (sleep: u32)
    ensures
        sleep_in_range(min_sleep, max_sleep, sleep),
{
    pick_sleep(
        min_sleep,
        max_sleep,
        if min_sleep < max_sleep {
            gen_range(rng, min_sleep, max_sleep)
        } else {
            max_sleep
        },
    )
}

/// The time to hold or to pause a click for, given what was drawn: the draw
/// where the range holds a time, the longest sleep where it holds none.
pub fn pick_sleep(min_sleep: u32, max_sleep: u32, drawn: u32) -> (sleep: u32)
    ensures
        sleep == if min_sleep < max_sleep {
            drawn
        } else {
            max_sleep
        },
{
    if min_sleep < max_sleep {
        drawn
    } else {
        max_sleep
    }
}

/// With the shortest and the longest sleep the same, every click is held and
/// paused for exactly that time.
pub proof fn lemma_fixed_sleep(sleep: u32, drawn: u32)
    ensures
        sleep_in_range(sleep, sleep, drawn) <==> drawn == sleep,
{
}

/// The sleeps as the worker keeps them: in order, swapped where they came
/// the wrong way round.
pub open spec fn ordered_sleeps(params: ClickParams) -> (u32, u32) {
    if params.max_sleep < params.min_sleep {
        (params.max_sleep, params.min_sleep)
    } else {
        (params.min_sleep, params.max_sleep)
    }
}

impl ClickWorker {
    /// Whether `event` answers what the worker waits for.
    pub open spec fn expects(&self, event: ClickEvent) -> bool {
        match self.phase {
            ClickPhase::AwaitParams => event is Params,
            ClickPhase::AwaitControl => event is Control,
            ClickPhase::AwaitToggleKey | ClickPhase::AwaitAutoKey | ClickPhase::AwaitMirrorKey => event
                is Key,
            ClickPhase::Stopped => false,
            _ => event is Done,
        }
    }

    /// The sleeps are in order, and the mode fits where the worker stands.
    pub open spec fn wf(&self) -> bool {
        &&& self.phase != ClickPhase::AwaitParams ==> self.min_sleep <= self.max_sleep
        &&& self.phase == ClickPhase::AwaitAutoKey ==> self.mode == ClickMode::Auto
        &&& self.phase == ClickPhase::AwaitMirrorKey ==> self.mode is Redirected
    }

    /// What the worker does once the toggle key is dealt with.
    pub open spec fn dispatch(&self, mode: ClickMode) -> (ClickPhase, ClickAction) {
        match mode {
            ClickMode::Regular => (ClickPhase::AwaitTick, ClickAction::Sleep(TICK_NANOS)),
            ClickMode::Auto => (ClickPhase::AwaitAutoKey, ClickAction::QueryKey(self.autoclick_key)),
            ClickMode::Redirected(_) => (
                ClickPhase::AwaitMirrorKey,
                ClickAction::QueryKey(self.autoclick_key),
            ),
        }
    }

    /// The mode of the worker after `event`.
    pub open spec fn mode_after(&self, event: ClickEvent) -> ClickMode {
        match (self.phase, event, self.mode) {
            (ClickPhase::AwaitToggleKey, ClickEvent::Key(true), mode) => mode.next(),
            (ClickPhase::AwaitMirrorKey, ClickEvent::Key(down), ClickMode::Redirected(_)) => ClickMode::Redirected(
                down,
            ),
            (_, _, mode) => mode,
        }
    }

    /// What the worker waits for after `event`, and the action that it asks
    /// for, but for the press that starts a click: see `step`.
    pub open spec fn flow(&self, event: ClickEvent) -> (ClickPhase, ClickAction) {
        match (self.phase, event) {
            (ClickPhase::AwaitParams, ClickEvent::Params(p)) => (
                ClickPhase::AwaitReport,
                ClickAction::Report(
                    ConfigNotes {
                        invalid_button: crate::input::button_states(p.fake_lmb_key) is None,
                        swapped_sleeps: p.max_sleep < p.min_sleep,
                    },
                ),
            ),
            (ClickPhase::AwaitControl, ClickEvent::Control(Some(ThreadMsg::Reload))) => (
                ClickPhase::AwaitParams,
                ClickAction::ReadConfig,
            ),
            (ClickPhase::AwaitControl, ClickEvent::Control(Some(ThreadMsg::Stop))) => (
                ClickPhase::Stopped,
                ClickAction::Exit,
            ),
            (ClickPhase::AwaitControl, ClickEvent::Control(None)) => (
                ClickPhase::AwaitToggleKey,
                ClickAction::QueryKey(self.toggle_key),
            ),
            (ClickPhase::AwaitTick, _) => (ClickPhase::AwaitControl, ClickAction::PollControl),
            (ClickPhase::AwaitToggleKey, ClickEvent::Key(true)) => if self.mode.holds_button() {
                (ClickPhase::AwaitToggleLift, ClickAction::Send(Stroke::button(self.channel.click_up)))
            } else {
                (
                    ClickPhase::AwaitRelease,
                    ClickAction::WaitRelease(self.toggle_key, TOGGLE_TIMEOUT_MILLIS),
                )
            },
            (ClickPhase::AwaitToggleLift, _) => (
                ClickPhase::AwaitRelease,
                ClickAction::WaitRelease(self.toggle_key, TOGGLE_TIMEOUT_MILLIS),
            ),
            (ClickPhase::AwaitToggleKey, ClickEvent::Key(false)) => self.dispatch(self.mode),
            (ClickPhase::AwaitRelease, _) => self.dispatch(self.mode),
            (ClickPhase::AwaitAutoKey, ClickEvent::Key(true)) => (
                ClickPhase::AwaitPress(0, 0),
                ClickAction::Send(Stroke::button(self.channel.click_down)),
            ),
            (ClickPhase::AwaitPress(hold, pause), _) => (
                ClickPhase::AwaitHold(pause),
                ClickAction::Sleep((hold * 1_000_000) as u64),
            ),
            (ClickPhase::AwaitHold(pause), _) => (
                ClickPhase::AwaitLift(pause),
                ClickAction::Send(Stroke::button(self.channel.click_up)),
            ),
            (ClickPhase::AwaitLift(pause), _) => (
                ClickPhase::AwaitPause,
                ClickAction::Sleep((pause * 1_000_000) as u64),
            ),
            (ClickPhase::AwaitMirrorKey, ClickEvent::Key(down)) => if down
                != self.mode.holds_button() {
                (
                    ClickPhase::AwaitMirror,
                    ClickAction::Send(
                        Stroke::button(
                            if down {
                                self.channel.click_down
                            } else {
                                self.channel.click_up
                            },
                        ),
                    ),
                )
            } else {
                (ClickPhase::AwaitTick, ClickAction::Sleep(TICK_NANOS))
            },
            _ => (ClickPhase::AwaitTick, ClickAction::Sleep(TICK_NANOS)),
        }
    }

    /// The binding of the button after `event`: new parameters bind the
    /// button that they name, if they name one.
    pub open spec fn channel_after(&self, event: ClickEvent) -> InterceptionState {
        match (self.phase, event) {
            (ClickPhase::AwaitParams, ClickEvent::Params(p)) => match crate::input::button_states(
                p.fake_lmb_key,
            ) {
                Some((down, up)) => InterceptionState {
                    mouse_dev: self.channel.mouse_dev,
                    click_down: down,
                    click_up: up,
                },
                None => self.channel,
            },
            _ => self.channel,
        }
    }

    /// A worker on the pointer device `mouse_dev` that draws its sleeps from
    /// `rng`, in the regular mode, and its first action: to read the
    /// configuration.
    pub fn new(mouse_dev: i32, rng: ThreadRng) -> (out: (ClickWorker, ClickAction))
        ensures
            out.0.wf(),
            out.0.mode == ClickMode::Regular,
            out.0.phase == ClickPhase::AwaitParams,
            out.0.channel == InterceptionState::new_spec(mouse_dev),
            out.1 == ClickAction::ReadConfig,
    {
        (
            ClickWorker {
                mode: ClickMode::Regular,
                channel: InterceptionState::new(mouse_dev),
                autoclick_key: 0,
                toggle_key: 0,
                min_sleep: 0,
                max_sleep: 0,
                phase: ClickPhase::AwaitParams,
                rng,
            },
            ClickAction::ReadConfig,
        )
    }

    /// Takes what came of the last action and names the next one.
    ///
    /// New parameters bind the button that they name and keep the binding
    /// where they name none; sleeps that come the wrong way round are
    /// swapped. The toggle key, found down, moves the worker to the next
    /// mode once, releases the button first if the mode held it down, and is
    /// then waited for until it is up. A click is a press, a hold, a release
    /// and a pause; the times of the hold and of the pause are drawn anew for
    /// each click.
    pub fn step(&mut self, event: ClickEvent) -> (action: ClickAction)
        requires
            old(self).wf(),
            old(self).expects(event),
        ensures
            final(self).wf(),
            action == old(self).flow(event).1,
            final(self).mode == old(self).mode_after(event),
            final(self).channel == old(self).channel_after(event),
            old(self).phase == ClickPhase::AwaitAutoKey && event == ClickEvent::Key(true) ==> (
            final(self).phase matches ClickPhase::AwaitPress(hold, pause) && sleep_in_range(
                old(self).min_sleep,
                old(self).max_sleep,
                hold,
            ) && sleep_in_range(old(self).min_sleep, old(self).max_sleep, pause)),
            !(old(self).phase == ClickPhase::AwaitAutoKey && event == ClickEvent::Key(true))
                ==> final(self).phase == old(self).flow(event).0,
            match (old(self).phase, event) {
                (ClickPhase::AwaitParams, ClickEvent::Params(p)) => {
                    &&& final(self).autoclick_key == p.autoclick_key
                    &&& final(self).toggle_key == p.toggle_autoclick_key
                    &&& (final(self).min_sleep, final(self).max_sleep) == ordered_sleeps(p)
                },
                _ => {
                    &&& final(self).autoclick_key == old(self).autoclick_key
                    &&& final(self).toggle_key == old(self).toggle_key
                    &&& final(self).min_sleep == old(self).min_sleep
                    &&& final(self).max_sleep == old(self).max_sleep
                },
            },
    {
        match (self.phase, event) {
            (ClickPhase::AwaitParams, ClickEvent::Params(p)) => {
                self.autoclick_key = p.autoclick_key;
                self.toggle_key = p.toggle_autoclick_key;
                let invalid_button = self.channel.set_click_keycode(p.fake_lmb_key).is_err();
                let swapped_sleeps = p.max_sleep < p.min_sleep;
                if swapped_sleeps {
                    self.min_sleep = p.max_sleep;
                    self.max_sleep = p.min_sleep;
                } else {
                    self.min_sleep = p.min_sleep;
                    self.max_sleep = p.max_sleep;
                }
                self.phase = ClickPhase::AwaitReport;
                ClickAction::Report(ConfigNotes { invalid_button, swapped_sleeps })
            },
            (ClickPhase::AwaitControl, ClickEvent::Control(Some(ThreadMsg::Reload))) => {
                self.phase = ClickPhase::AwaitParams;
                ClickAction::ReadConfig
            },
            (ClickPhase::AwaitControl, ClickEvent::Control(Some(ThreadMsg::Stop))) => {
                self.phase = ClickPhase::Stopped;
                ClickAction::Exit
            },
            (ClickPhase::AwaitControl, ClickEvent::Control(None)) => {
                self.phase = ClickPhase::AwaitToggleKey;
                ClickAction::QueryKey(self.toggle_key)
            },
            (ClickPhase::AwaitTick, _) => {
                self.phase = ClickPhase::AwaitControl;
                ClickAction::PollControl
            },
            (ClickPhase::AwaitToggleKey, ClickEvent::Key(true)) => {
                let (mode, release) = self.mode.cycle();
                self.mode = mode;
                if release {
                    self.phase = ClickPhase::AwaitToggleLift;
                    ClickAction::Send(self.channel.click_up())
                } else {
                    self.phase = ClickPhase::AwaitRelease;
                    ClickAction::WaitRelease(self.toggle_key, TOGGLE_TIMEOUT_MILLIS)
                }
            },
            (ClickPhase::AwaitToggleLift, _) => {
                self.phase = ClickPhase::AwaitRelease;
                ClickAction::WaitRelease(self.toggle_key, TOGGLE_TIMEOUT_MILLIS)
            },
            (ClickPhase::AwaitToggleKey, ClickEvent::Key(false)) => self.act_on_mode(),
            (ClickPhase::AwaitRelease, _) => self.act_on_mode(),
            (ClickPhase::AwaitAutoKey, ClickEvent::Key(true)) => {
                let hold = draw_sleep(&mut self.rng, self.min_sleep, self.max_sleep);
                let pause = draw_sleep(&mut self.rng, self.min_sleep, self.max_sleep);
                self.phase = ClickPhase::AwaitPress(hold, pause);
                ClickAction::Send(self.channel.click_down())
            },
            (ClickPhase::AwaitPress(hold, pause), _) => {
                self.phase = ClickPhase::AwaitHold(pause);
                ClickAction::Sleep(hold as u64 * 1_000_000)
            },
            (ClickPhase::AwaitHold(pause), _) => {
                self.phase = ClickPhase::AwaitLift(pause);
                ClickAction::Send(self.channel.click_up())
            },
            (ClickPhase::AwaitLift(pause), _) => {
                self.phase = ClickPhase::AwaitPause;
                ClickAction::Sleep(pause as u64 * 1_000_000)
            },
            (ClickPhase::AwaitMirrorKey, ClickEvent::Key(down)) => {
                let was_pressed = match self.mode {
                    ClickMode::Redirected(was_pressed) => was_pressed,
                    _ => false,
                };
                if down != was_pressed {
                    self.mode = ClickMode::Redirected(down);
                    self.phase = ClickPhase::AwaitMirror;
                    if down {
                        ClickAction::Send(self.channel.click_down())
                    } else {
                        ClickAction::Send(self.channel.click_up())
                    }
                } else {
                    self.phase = ClickPhase::AwaitTick;
                    ClickAction::Sleep(TICK_NANOS)
                }
            },
            _ => {
                self.phase = ClickPhase::AwaitTick;
                ClickAction::Sleep(TICK_NANOS)
            },
        }
    }

    /// Goes on with the iteration once the toggle key is dealt with.
    fn act_on_mode(&mut self) -> (action: ClickAction)
        requires
            old(self).min_sleep <= old(self).max_sleep,
        ensures
            (final(self).phase, action) == old(self).dispatch(old(self).mode),
            final(self).mode == old(self).mode,
            final(self).channel == old(self).channel,
            final(self).autoclick_key == old(self).autoclick_key,
            final(self).toggle_key == old(self).toggle_key,
            final(self).min_sleep == old(self).min_sleep,
            final(self).max_sleep == old(self).max_sleep,
    {
        match self.mode {
            ClickMode::Regular => {
                self.phase = ClickPhase::AwaitTick;
                ClickAction::Sleep(TICK_NANOS)
            },
            ClickMode::Auto => {
                self.phase = ClickPhase::AwaitAutoKey;
                ClickAction::QueryKey(self.autoclick_key)
            },
            ClickMode::Redirected(_) => {
                self.phase = ClickPhase::AwaitMirrorKey;
                ClickAction::QueryKey(self.autoclick_key)
            },
        }
    }
}

/// A reload is followed by nothing but the reading of the configuration,
/// and a stop ends the worker: a stop that was queued behind a reload is
/// taken after the reload.
pub proof fn lemma_reload_then_stop(w: ClickWorker, read: ClickWorker, p: ClickParams)
    requires
        w.phase == ClickPhase::AwaitControl,
        read.phase == ClickPhase::AwaitParams,
    ensures
        w.flow(ClickEvent::Control(Some(ThreadMsg::Reload))) == (
            ClickPhase::AwaitParams,
            ClickAction::ReadConfig,
        ),
        w.flow(ClickEvent::Control(Some(ThreadMsg::Stop))) == (
            ClickPhase::Stopped,
            ClickAction::Exit,
        ),
        read.flow(ClickEvent::Params(p)).0 == ClickPhase::AwaitReport,
        !read.expects(ClickEvent::Control(Some(ThreadMsg::Stop))),
{
}

/// The toggle key, found down, moves the worker to the next mode once and
/// has it wait for the key to come up, after the release of a button that
/// the mode held down; until that wait is over nothing changes the mode
/// again, however long the key is held.
pub proof fn lemma_toggle_once(w: ClickWorker, waiting: ClickWorker, event: ClickEvent)
    requires
        w.phase == ClickPhase::AwaitToggleKey,
        waiting.phase == ClickPhase::AwaitRelease || waiting.phase == ClickPhase::AwaitToggleLift,
    ensures
        w.mode_after(ClickEvent::Key(true)) == w.mode.next(),
        w.mode_after(ClickEvent::Key(false)) == w.mode,
        w.mode.holds_button() ==> w.flow(ClickEvent::Key(true)) == (
            ClickPhase::AwaitToggleLift,
            ClickAction::Send(Stroke::button(w.channel.click_up)),
        ),
        !w.mode.holds_button() ==> w.flow(ClickEvent::Key(true)) == (
            ClickPhase::AwaitRelease,
            ClickAction::WaitRelease(w.toggle_key, TOGGLE_TIMEOUT_MILLIS),
        ),
        waiting.mode_after(event) == waiting.mode,
        !waiting.expects(ClickEvent::Key(true)),
        waiting.phase == ClickPhase::AwaitToggleLift ==> waiting.flow(event) == (
            ClickPhase::AwaitRelease,
            ClickAction::WaitRelease(waiting.toggle_key, TOGGLE_TIMEOUT_MILLIS),
        ),
{
}

/// In the redirected mode the button follows the autoclick key: a stroke is
/// sent when the key and the button differ, and only then.
pub proof fn lemma_redirected_follows(w: ClickWorker, down: bool, was: bool)
    requires
        w.phase == ClickPhase::AwaitMirrorKey,
        w.mode == ClickMode::Redirected(was),
    ensures
        w.mode_after(ClickEvent::Key(down)) == ClickMode::Redirected(down),
        down == was ==> w.flow(ClickEvent::Key(down)) == (
            ClickPhase::AwaitTick,
            ClickAction::Sleep(TICK_NANOS),
        ),
        down && !was ==> w.flow(ClickEvent::Key(down)).1 == ClickAction::Send(
            Stroke::button(w.channel.click_down),
        ),
        !down && was ==> w.flow(ClickEvent::Key(down)).1 == ClickAction::Send(
            Stroke::button(w.channel.click_up),
        ),
{
}

} // verus!
