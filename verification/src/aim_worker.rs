//! The aim worker, one decision at a time: it names what to do next, the
//! caller does it and hands back what came of it.
//!
//! An iteration checks the control channel, then the toggle key, captures a
//! frame, looks for the target in its middle, and moves the pointer towards
//! it while the aim key is down.

use crate::aim::aim_point;
use crate::aim::aim_vector;
use crate::aim::biased_row;
use crate::aim::correction;
use crate::aim::is_crop;
use crate::aim::locate;
use crate::aim::located;
use crate::aim::sum_x;
use crate::aim::sum_y;
use crate::aim::CLUSTER_RADIUS;
use crate::aim::MAX_SIDE;
use crate::aim::MAX_Y_MULTIPLIER;
use crate::cluster::linked;
use crate::cluster::points_of;
use crate::config::CfgKey;
use crate::config::Config;
use crate::coord::Coord;
use crate::image::image_ops::valid_thresh;
use crate::image::Color;
use crate::image::Image;
use crate::input::InterceptionState;
use crate::input::TimedStroke;
use crate::pixel_bot::CapData;
use crate::pixel_bot::ThreadMsg;
use vstd::prelude::*;

verus! {

/// How long the worker waits for the toggle key to come up, in milliseconds.
pub const TOGGLE_TIMEOUT_MILLIS: u64 = 500;

/// How long a disabled worker rests between two looks at the control
/// channel, in nanoseconds.
pub const IDLE_SLEEP_NANOS: u64 = 1_000_000;

/// What the worker takes from the configuration, read out once for many
/// iterations. Fractions are in thousandths.
#[derive(Debug, Clone, Copy, PartialEq)]
pub struct AimParams {
    pub fps: u32,
    pub crop_w: u32,
    pub crop_h: u32,
    pub color_thresh: u32,
    pub aim_divisor: u32,
    pub y_multiplier: u32,
    pub aim_dur: u32,
    pub aim_steps: u32,
    pub aim_key: u16,
    pub toggle_key: u16,
    pub target_color: Color<u8>,
}

impl AimParams {
    /// What `cfg` holds for the aim worker.
    pub open spec fn of(cfg: Map<CfgKey, crate::config::ValType>) -> AimParams {
        AimParams {
            fps: cfg[CfgKey::Fps].number(),
            crop_w: cfg[CfgKey::CropW].number(),
            crop_h: cfg[CfgKey::CropH].number(),
            color_thresh: cfg[CfgKey::ColorThresh].number(),
            aim_divisor: cfg[CfgKey::AimDivisor].number(),
            y_multiplier: cfg[CfgKey::YMultiplier].number(),
            aim_dur: cfg[CfgKey::AimDurationMicros].number(),
            aim_steps: cfg[CfgKey::AimSteps].number(),
            aim_key: cfg[CfgKey::AimKeycode].keycode(),
            toggle_key: cfg[CfgKey::ToggleAimKeycode].keycode(),
            target_color: cfg[CfgKey::TargetColor].color(),
        }
    }

    /// Reads out of `cfg` what the aim worker takes from it.
    pub fn from_config(cfg: &Config) -> (params: AimParams)
        requires
            cfg.wf(),
        ensures
            params == AimParams::of(cfg@),
    {
        AimParams {
            fps: cfg.get(CfgKey::Fps).into_bounded().val,
            crop_w: cfg.get(CfgKey::CropW).into_bounded().val,
            crop_h: cfg.get(CfgKey::CropH).into_bounded().val,
            color_thresh: cfg.get(CfgKey::ColorThresh).into_bounded().val,
            aim_divisor: cfg.get(CfgKey::AimDivisor).into_bounded().val,
            y_multiplier: cfg.get(CfgKey::YMultiplier).into_bounded().val,
            aim_dur: cfg.get(CfgKey::AimDurationMicros).into_bounded().val,
            aim_steps: cfg.get(CfgKey::AimSteps).into_bounded().val,
            aim_key: cfg.get(CfgKey::AimKeycode).into_keycode(),
            toggle_key: cfg.get(CfgKey::ToggleAimKeycode).into_keycode(),
            target_color: cfg.get(CfgKey::TargetColor).into_color(),
        }
    }

    /// The parameters can be worked with: the threshold lies strictly
    /// between nought and one, nothing is divided by nought, and the numbers
    /// stay inside what the arithmetic holds.
    pub open spec fn valid(self) -> bool {
        &&& valid_thresh(self.color_thresh)
        &&& self.aim_divisor > 0
        &&& self.y_multiplier <= MAX_Y_MULTIPLIER
        &&& 0 < self.aim_steps <= i32::MAX
        &&& self.fps > 0
    }

    /// Whether the parameters can be worked with.
    pub fn is_valid(&self) -> (b: bool)
        ensures
            b == self.valid(),
    {
        0 < self.color_thresh && self.color_thresh < 1000 && self.aim_divisor > 0
            && self.y_multiplier <= MAX_Y_MULTIPLIER && 0 < self.aim_steps && self.aim_steps
            <= 0x7FFF_FFFF && self.fps > 0
    }

    /// The crop leaves something of `frame`, and no more than detection
    /// takes.
    pub open spec fn fits(self, frame: &Image) -> bool {
        &&& frame.wf()
        &&& frame.can_crop(self.crop_w as usize, self.crop_h as usize)
        &&& frame.w - 2 * self.crop_w <= MAX_SIDE
        &&& frame.h - 2 * self.crop_h <= MAX_SIDE
    }

    /// Whether the crop leaves something of a frame of `w` by `h`, and no
    /// more than detection takes.
    pub fn fits_frame(&self, frame: &Image) -> (b: bool)
        requires
            frame.wf(),
        ensures
            b == self.fits(frame),
    {
        let (cw, ch) = (self.crop_w as usize, self.crop_h as usize);
        cw < frame.w && ch < frame.h && cw < frame.w - cw && ch < frame.h - ch && frame.w - cw - cw
            <= MAX_SIDE && frame.h - ch - ch <= MAX_SIDE
    }

    /// The pause after a capture that brought no new frame, in nanoseconds:
    /// the time of one frame at the configured rate.
    pub open spec fn frame_nanos(self) -> u64 {
        (1_000_000_000int / (self.fps as int)) as u64
    }
}

/// The point to aim at in `cluster` under a Y multiplier of `y_multiplier`
/// thousandths: the centre of the cluster with its row multiplied.
pub open spec fn aim_point_of(cluster: Seq<Coord<usize>>, y_multiplier: u32) -> Coord<usize> {
    Coord {
        x: (sum_x(cluster) / (cluster.len() as int)) as usize,
        y: biased_row(sum_y(cluster) / (cluster.len() as int), y_multiplier) as usize,
    }
}

/// What an iteration makes of a frame: what to show, and the correction.
#[derive(Debug)]
pub struct Aim {
    pub data: CapData,
    pub relative: Coord<i32>,
}

/// `aim` is what `params` make of `frame`: the crop; the cluster that
/// detection settles on in it, if any; the point to aim at in that cluster;
/// and the correction from the centre of the crop towards that point. Where
/// there is no cluster there is no point, and no correction.
pub open spec fn aims(params: AimParams, frame: &Image, aim: &Aim) -> bool {
    &&& is_crop(frame, params.crop_w as usize, params.crop_h as usize, &aim.data.img)
    &&& match located(&aim.data.img, params.target_color, params.color_thresh) {
        Some(points) => {
            &&& aim.data.target_coords matches Some(cluster)
            &&& points_of(cluster@) == points
            &&& cluster@.len() > 0
            &&& cluster@.no_duplicates()
            &&& linked(cluster@, CLUSTER_RADIUS)
            &&& aim.data.aim_coord == Some(aim_point_of(cluster@, params.y_multiplier))
            &&& aim.relative == correction(
                aim_point_of(cluster@, params.y_multiplier),
                aim.data.img.w,
                aim.data.img.h,
                params.aim_divisor,
            )
        },
        None => {
            &&& aim.data.target_coords is None
            &&& aim.data.aim_coord is None
            &&& aim.relative == (Coord { x: 0i32, y: 0i32 })
        },
    }
}

/// What is shown of what a frame came to.
pub open spec fn shown(pending: Option<Aim>) -> Option<CapData> {
    match pending {
        Some(aim) => Some(aim.data),
        None => None,
    }
}

/// What `params` make of `frame`.
pub fn take_aim(params: &AimParams, frame: &Image) -> (aim: Aim)
    requires
        params.valid(),
        params.fits(frame),
    ensures
        aims(*params, frame, &aim),
{
    let cropped = frame.crop_to_center(params.crop_w as usize, params.crop_h as usize);
    proof {
        crate::cluster::lemma_sides_fit((cropped.w, cropped.h));
    }
    let target_coords = locate(&cropped, params.target_color, params.color_thresh);
    let aim_coord = match &target_coords {
        Some(cluster) => {
            proof {
                assert(cluster@.len() <= 0xFFFF * 0xFFFF) by (nonlinear_arith)
                    requires
                        cluster@.len() <= cropped.w * cropped.h,
                        cropped.w <= 0xFFFF,
                        cropped.h <= 0xFFFF,
                ;
            }
            Some(aim_point(cluster.as_slice(), params.y_multiplier))
        },
        None => None,
    };
    let relative = aim_vector(aim_coord, cropped.w, cropped.h, params.aim_divisor);
    Aim { data: CapData { img: cropped, target_coords, aim_coord }, relative }
}

/// How a capture ended.
#[derive(Debug)]
pub enum CaptureOutcome {
    /// A frame, in a buffer of its own.
    Frame(Image),
    /// Nothing changed on the screen.
    NoNewFrame,
    /// The duplication was lost.
    AccessLost,
    /// Any other failure, by its code.
    Failed(u32),
}

/// What the caller hands back to the worker.
#[derive(Debug)]
pub enum AimEvent {
    /// What was asked for is done.
    Done,
    /// The parameters, as the configuration holds them now.
    Params(AimParams),
    /// What was on the control channel, if anything.
    Control(Option<ThreadMsg>),
    /// Whether the key that was asked about is down.
    Key(bool),
    /// How the capture ended.
    Captured(CaptureOutcome),
}

/// What the worker has the caller do.
#[derive(Debug)]
pub enum AimAction {
    /// Read the parameters out of the configuration; answer with `Params`.
    ReadConfig,
    /// Look at the control channel without waiting; answer with `Control`.
    PollControl,
    /// Ask whether the key is down; answer with `Key`.
    QueryKey(u16),
    /// Wait until the key is up, for so many milliseconds at most.
    WaitRelease(u16, u64),
    /// Rest for so many nanoseconds.
    Sleep(u64),
    /// Capture a frame without waiting; answer with `Captured`.
    Capture,
    /// Make the duplication of the output anew.
    Recreate,
    /// Send the strokes, resting after each as it says.
    Move(Vec<TimedStroke>),
    /// Send out what the iteration saw and how long it took, dropping either
    /// if nobody takes it at once.
    Publish(CapData),
    /// End the worker and release what it holds.
    Exit,
    /// End the whole process: the capture failed for good, with this code.
    Fail(u32),
}

/// What the worker waits for.
#[derive(Debug, Clone, Copy, PartialEq, Eq, Structural)]
pub enum AimPhase {
    AwaitParams,
    AwaitControl,
    AwaitToggleKey,
    AwaitRelease,
    AwaitIdleSleep,
    AwaitCapture,
    AwaitFrameSleep,
    AwaitRecreate,
    AwaitAimKey,
    AwaitMove,
    AwaitPublish,
    Stopped,
}

/// The aim worker between two steps.
#[derive(Debug)]
pub struct AimWorker {
    /// Whether the worker captures and aims, or rests until toggled.
    pub enabled: bool,
    pub params: AimParams,
    pub channel: InterceptionState,
    pub phase: AimPhase,
    /// What the frame of this iteration came to, until it is sent out.
    pub pending: Option<Aim>,
}

/// The kind of an action, without what it carries.
#[derive(Debug, Clone, Copy, PartialEq, Eq, Structural)]
pub enum AimStep {
    ReadConfig,
    PollControl,
    QueryKey(u16),
    WaitRelease(u16, u64),
    Sleep(u64),
    Capture,
    Recreate,
    Move,
    Publish,
    Exit,
    Fail(u32),
}

impl AimAction {
    /// The kind of the action.
    pub open spec fn step(&self) -> AimStep {
        match self {
            AimAction::ReadConfig => AimStep::ReadConfig,
            AimAction::PollControl => AimStep::PollControl,
            AimAction::QueryKey(k) => AimStep::QueryKey(*k),
            AimAction::WaitRelease(k, t) => AimStep::WaitRelease(*k, *t),
            AimAction::Sleep(n) => AimStep::Sleep(*n),
            AimAction::Capture => AimStep::Capture,
            AimAction::Recreate => AimStep::Recreate,
            AimAction::Move(_) => AimStep::Move,
            AimAction::Publish(_) => AimStep::Publish,
            AimAction::Exit => AimStep::Exit,
            AimAction::Fail(code) => AimStep::Fail(*code),
        }
    }
}

impl AimWorker {
    /// Whether `event` answers what the worker waits for.
    pub open spec fn expects(&self, event: &AimEvent) -> bool {
        match self.phase {
            AimPhase::AwaitParams => event is Params,
            AimPhase::AwaitControl => event is Control,
            AimPhase::AwaitToggleKey | AimPhase::AwaitAimKey => event is Key,
            AimPhase::AwaitCapture => event is Captured,
            AimPhase::AwaitRelease | AimPhase::AwaitIdleSleep | AimPhase::AwaitFrameSleep
            | AimPhase::AwaitRecreate | AimPhase::AwaitMove | AimPhase::AwaitPublish => event
                is Done,
            AimPhase::Stopped => false,
        }
    }

    /// What the worker holds fits where it stands: past the reading of the
    /// configuration its parameters can be worked with, and from the capture
    /// until it is handed out the worker holds what the frame came to.
    pub open spec fn wf(&self) -> bool {
        &&& self.phase != AimPhase::AwaitParams && self.phase != AimPhase::Stopped
            ==> self.params.valid()
        &&& (self.phase == AimPhase::AwaitAimKey || self.phase == AimPhase::AwaitMove)
            <==> self.pending is Some
    }

    /// What an enabled worker does once the toggle key is dealt with, and
    /// what a disabled one.
    pub open spec fn after_toggle(enabled: bool) -> (AimPhase, AimStep) {
        if enabled {
            (AimPhase::AwaitCapture, AimStep::Capture)
        } else {
            (AimPhase::AwaitIdleSleep, AimStep::Sleep(IDLE_SLEEP_NANOS))
        }
    }

    /// Whether the worker captures and aims after `event`: the toggle key,
    /// found down, flips it, and nothing else does.
    pub open spec fn enabled_after(&self, event: &AimEvent) -> bool {
        if self.phase == AimPhase::AwaitToggleKey && event == AimEvent::Key(true) {
            !self.enabled
        } else {
            self.enabled
        }
    }

    /// What the worker waits for after `event`, and the kind of action that
    /// it asks for.
    pub open spec fn flow(&self, event: &AimEvent) -> (AimPhase, AimStep) {
        match (self.phase, event) {
            (AimPhase::AwaitParams, AimEvent::Params(_)) => (
                AimPhase::AwaitControl,
                AimStep::PollControl,
            ),
            (AimPhase::AwaitControl, AimEvent::Control(Some(ThreadMsg::Reload))) => (
                AimPhase::AwaitParams,
                AimStep::ReadConfig,
            ),
            (AimPhase::AwaitControl, AimEvent::Control(Some(ThreadMsg::Stop))) => (
                AimPhase::Stopped,
                AimStep::Exit,
            ),
            (AimPhase::AwaitControl, AimEvent::Control(None)) => (
                AimPhase::AwaitToggleKey,
                AimStep::QueryKey(self.params.toggle_key),
            ),
            (AimPhase::AwaitToggleKey, AimEvent::Key(true)) => (
                AimPhase::AwaitRelease,
                AimStep::WaitRelease(self.params.toggle_key, TOGGLE_TIMEOUT_MILLIS),
            ),
            (AimPhase::AwaitToggleKey, AimEvent::Key(false)) => Self::after_toggle(self.enabled),
            (AimPhase::AwaitRelease, _) => Self::after_toggle(self.enabled),
            (AimPhase::AwaitCapture, AimEvent::Captured(CaptureOutcome::Frame(_))) => (
                AimPhase::AwaitAimKey,
                AimStep::QueryKey(self.params.aim_key),
            ),
            (AimPhase::AwaitCapture, AimEvent::Captured(CaptureOutcome::NoNewFrame)) => (
                AimPhase::AwaitFrameSleep,
                AimStep::Sleep(self.params.frame_nanos()),
            ),
            (AimPhase::AwaitCapture, AimEvent::Captured(CaptureOutcome::AccessLost)) => (
                AimPhase::AwaitRecreate,
                AimStep::Recreate,
            ),
            (AimPhase::AwaitCapture, AimEvent::Captured(CaptureOutcome::Failed(code))) => (
                AimPhase::Stopped,
                AimStep::Fail(*code),
            ),
            (AimPhase::AwaitAimKey, AimEvent::Key(true)) => (AimPhase::AwaitMove, AimStep::Move),
            (AimPhase::AwaitAimKey, AimEvent::Key(false)) => (
                AimPhase::AwaitPublish,
                AimStep::Publish,
            ),
            (AimPhase::AwaitMove, _) => (AimPhase::AwaitPublish, AimStep::Publish),
            _ => (AimPhase::AwaitControl, AimStep::PollControl),
        }
    }

    /// A worker on the pointer device `mouse_dev`, enabled, and its first
    /// action: to read the configuration.
    pub fn new(mouse_dev: i32) -> (out: (AimWorker, AimAction))
        ensures
            out.0.wf(),
            out.0.enabled,
            out.0.phase == AimPhase::AwaitParams,
            out.0.channel == InterceptionState::new_spec(mouse_dev),
            out.1 is ReadConfig,
    {
        let params = AimParams {
            fps: 0,
            crop_w: 0,
            crop_h: 0,
            color_thresh: 0,
            aim_divisor: 0,
            y_multiplier: 0,
            aim_dur: 0,
            aim_steps: 0,
            aim_key: 0,
            toggle_key: 0,
            target_color: Color::new(0, 0, 0, 0),
        };
        (
            AimWorker {
                enabled: true,
                params,
                channel: InterceptionState::new(mouse_dev),
                phase: AimPhase::AwaitParams,
                pending: None,
            },
            AimAction::ReadConfig,
        )
    }

    /// Takes what came of the last action and names the next one.
    ///
    /// A reload has the configuration read again before anything else is
    /// done, and a stop ends the worker: each message is acted on when it is
    /// taken, so they are acted on in the order in which the channel hands
    /// them over. The toggle key, found down, flips the worker once and is
    /// then waited for until it is up. A frame is cropped and searched as
    /// the parameters say, the pointer is moved only while the aim key is
    /// down, and what the frame came to is sent out either way.
    pub fn step(&mut self, event: AimEvent) -> (action: AimAction)
        requires
            old(self).wf(),
            old(self).expects(&event),
            event matches AimEvent::Params(p) ==> p.valid(),
            event matches AimEvent::Captured(CaptureOutcome::Frame(frame)) ==> old(self).params.fits(&frame),
        ensures
            final(self).wf(),
            (final(self).phase, action.step()) == old(self).flow(&event),
            final(self).enabled == old(self).enabled_after(&event),
            final(self).channel == old(self).channel,
            final(self).params == if let AimEvent::Params(p) = event {
                p
            } else {
                old(self).params
            },
            event matches AimEvent::Captured(CaptureOutcome::Frame(frame)) ==> final(self).pending is Some && aims(old(self).params, &frame, &final(self).pending.unwrap()),
            old(self).phase == AimPhase::AwaitAimKey ==> {
                &&& action matches AimAction::Move(plan) ==> {
                    &&& plan@.len() == old(self).params.aim_steps
                    &&& forall|i: int|
                        0 <= i < plan@.len() ==> #[trigger] plan@[i] == crate::input::chunk(
                            old(self).params.aim_dur,
                            old(self).params.aim_steps,
                            old(self).pending.unwrap().relative,
                            i,
                        )
                    &&& crate::input::moved_x(plan@) == old(self).pending.unwrap().relative.x
                    &&& crate::input::moved_y(plan@) == old(self).pending.unwrap().relative.y
                    &&& final(self).pending == old(self).pending
                }
                &&& action matches AimAction::Publish(data) ==> Some(data) == shown(
                    old(self).pending,
                ) && final(self).pending is None
            },
            old(self).phase == AimPhase::AwaitMove ==> (action matches AimAction::Publish(data)
                && Some(data) == shown(old(self).pending) && final(self).pending is None),
    {
        match (self.phase, event) {
            (AimPhase::AwaitParams, AimEvent::Params(p)) => {
                self.params = p;
                self.phase = AimPhase::AwaitControl;
                AimAction::PollControl
            },
            (AimPhase::AwaitControl, AimEvent::Control(Some(ThreadMsg::Reload))) => {
                self.phase = AimPhase::AwaitParams;
                AimAction::ReadConfig
            },
            (AimPhase::AwaitControl, AimEvent::Control(Some(ThreadMsg::Stop))) => {
                self.phase = AimPhase::Stopped;
                AimAction::Exit
            },
            (AimPhase::AwaitControl, AimEvent::Control(None)) => {
                self.phase = AimPhase::AwaitToggleKey;
                AimAction::QueryKey(self.params.toggle_key)
            },
            (AimPhase::AwaitToggleKey, AimEvent::Key(true)) => {
                self.enabled = !self.enabled;
                self.phase = AimPhase::AwaitRelease;
                AimAction::WaitRelease(self.params.toggle_key, TOGGLE_TIMEOUT_MILLIS)
            },
            (AimPhase::AwaitToggleKey, AimEvent::Key(false)) => self.resume_iteration(),
            (AimPhase::AwaitRelease, _) => self.resume_iteration(),
            (AimPhase::AwaitCapture, AimEvent::Captured(CaptureOutcome::Frame(frame))) => {
                let aim = take_aim(&self.params, &frame);
                self.pending = Some(aim);
                self.phase = AimPhase::AwaitAimKey;
                AimAction::QueryKey(self.params.aim_key)
            },
            (AimPhase::AwaitCapture, AimEvent::Captured(CaptureOutcome::NoNewFrame)) => {
                self.phase = AimPhase::AwaitFrameSleep;
                AimAction::Sleep(1_000_000_000 / self.params.fps as u64)
            },
            (AimPhase::AwaitCapture, AimEvent::Captured(CaptureOutcome::AccessLost)) => {
                self.phase = AimPhase::AwaitRecreate;
                AimAction::Recreate
            },
            (AimPhase::AwaitCapture, AimEvent::Captured(CaptureOutcome::Failed(code))) => {
                self.phase = AimPhase::Stopped;
                AimAction::Fail(code)
            },
            (AimPhase::AwaitAimKey, AimEvent::Key(true)) => {
                let relative = match &self.pending {
                    Some(aim) => aim.relative,
                    None => Coord::new(0, 0),
                };
                let plan = self.channel.move_mouse_over_time(
                    self.params.aim_dur,
                    self.params.aim_steps,
                    relative,
                );
                self.phase = AimPhase::AwaitMove;
                AimAction::Move(plan)
            },
            (AimPhase::AwaitAimKey, AimEvent::Key(false)) => self.publish(),
            (AimPhase::AwaitMove, _) => self.publish(),
            _ => {
                self.phase = AimPhase::AwaitControl;
                AimAction::PollControl
            },
        }
    }

    /// Goes on with the iteration once the toggle key is dealt with.
    fn resume_iteration(&mut self) -> (action: AimAction)
        requires
            old(self).params.valid(),
            old(self).pending is None,
        ensures
            (final(self).phase, action.step()) == Self::after_toggle(old(self).enabled),
            final(self).enabled == old(self).enabled,
            final(self).params == old(self).params,
            final(self).channel == old(self).channel,
            final(self).pending == old(self).pending,
    {
        if !self.enabled {
            self.phase = AimPhase::AwaitIdleSleep;
            AimAction::Sleep(IDLE_SLEEP_NANOS)
        } else {
            self.phase = AimPhase::AwaitCapture;
            AimAction::Capture
        }
    }

    /// Hands out what the frame of this iteration came to.
    fn publish(&mut self) -> (action: AimAction)
        requires
            old(self).pending is Some,
        ensures
            final(self).phase == AimPhase::AwaitPublish,
            (action matches AimAction::Publish(data) && Some(data) == shown(old(self).pending)),
            final(self).pending is None,
            final(self).enabled == old(self).enabled,
            final(self).params == old(self).params,
            final(self).channel == old(self).channel,
    {
        self.phase = AimPhase::AwaitPublish;
        match self.pending.take() {
            Some(aim) => AimAction::Publish(aim.data),
            None => AimAction::PollControl,
        }
    }
}

/// A reload is followed by nothing but the reading of the configuration,
/// and the parameters read are followed by nothing but the next look at the
/// control channel: a stop that was queued behind the reload is taken after
/// the reload and before another frame is.
pub proof fn lemma_reload_then_stop(w: AimWorker, read: AimWorker, p: AimParams)
    requires
        w.phase == AimPhase::AwaitControl,
        read.phase == AimPhase::AwaitParams,
    ensures
        w.flow(&AimEvent::Control(Some(ThreadMsg::Reload))) == (
            AimPhase::AwaitParams,
            AimStep::ReadConfig,
        ),
        read.flow(&AimEvent::Params(p)) == (AimPhase::AwaitControl, AimStep::PollControl),
        w.flow(&AimEvent::Control(Some(ThreadMsg::Stop))) == (AimPhase::Stopped, AimStep::Exit),
        !w.expects(&AimEvent::Captured(CaptureOutcome::NoNewFrame)),
        !read.expects(&AimEvent::Control(Some(ThreadMsg::Stop))),
{
}

/// The toggle key, found down, flips the worker once and has it wait for the
/// key to come up; until that wait is over nothing flips the worker again,
/// however long the key is held.
pub proof fn lemma_toggle_once(w: AimWorker, waiting: AimWorker, event: AimEvent)
    requires
        w.phase == AimPhase::AwaitToggleKey,
        waiting.phase == AimPhase::AwaitRelease,
    ensures
        w.enabled_after(&AimEvent::Key(true)) == !w.enabled,
        w.flow(&AimEvent::Key(true)) == (
            AimPhase::AwaitRelease,
            AimStep::WaitRelease(w.params.toggle_key, TOGGLE_TIMEOUT_MILLIS),
        ),
        w.enabled_after(&AimEvent::Key(false)) == w.enabled,
        waiting.enabled_after(&event) == waiting.enabled,
        !waiting.expects(&AimEvent::Key(true)),
{
}

/// A disabled worker neither captures nor moves the pointer: it rests and
/// looks at the control channel again.
pub proof fn lemma_disabled_rests(w: AimWorker)
    requires
        w.phase == AimPhase::AwaitToggleKey || w.phase == AimPhase::AwaitRelease,
        !w.enabled,
    ensures
        w.phase == AimPhase::AwaitToggleKey ==> w.flow(&AimEvent::Key(false)) == (
            AimPhase::AwaitIdleSleep,
            AimStep::Sleep(IDLE_SLEEP_NANOS),
        ),
        w.phase == AimPhase::AwaitRelease ==> w.flow(&AimEvent::Done) == (
            AimPhase::AwaitIdleSleep,
            AimStep::Sleep(IDLE_SLEEP_NANOS),
        ),
{
}

} // verus!
