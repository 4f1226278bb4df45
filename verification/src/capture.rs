//! The frame source as a protocol: which call to the system comes next, and
//! what its result leads to.
//!
//! The capturer holds at most one duplication of the output and at most one
//! mapped surface. It never makes a call itself: it names the call, the
//! caller makes it and hands back how it ended.

use vstd::prelude::*;

verus! {

/// The duplication was lost for good, as after a change of display mode.
pub const DXGI_ERROR_ACCESS_LOST: u32 = 0x887A_0026;

/// No new frame came within the timeout.
pub const DXGI_ERROR_WAIT_TIMEOUT: u32 = 0x887A_0027;

/// As many duplications are open as the system allows.
pub const DXGI_ERROR_NOT_CURRENTLY_AVAILABLE: u32 = 0x887A_0022;

/// The desktop is being switched; the call may be tried again.
pub const E_ACCESSDENIED: u32 = 0x8007_0005;

/// A handle was not valid.
pub const E_HANDLE: u32 = 0x8007_0006;

/// Why a frame could not be had.
#[derive(Debug, Clone, Copy, PartialEq, Eq, Structural)]
pub enum CaptureError {
    /// The duplication was lost; it can be made anew.
    AccessLost,
    /// Any other failure, by its code.
    WinErr(u32),
}

impl CaptureError {
    /// The error that the failure code `code` stands for.
    pub open spec fn of(code: u32) -> CaptureError {
        if code == DXGI_ERROR_ACCESS_LOST {
            CaptureError::AccessLost
        } else {
            CaptureError::WinErr(code)
        }
    }

    /// The error that the failure code `code` stands for.
    pub fn from(code: u32) -> (e: CaptureError)
        ensures
            e == CaptureError::of(code),
    {
        if code == DXGI_ERROR_ACCESS_LOST {
            CaptureError::AccessLost
        } else {
            CaptureError::WinErr(code)
        }
    }
}

/// A call to the system that the capturer asks for.
#[derive(Debug, Clone, Copy, PartialEq, Eq, Structural)]
pub enum Request {
    /// Open the desktop that receives input.
    OpenInputDesktop,
    /// Attach the thread to that desktop and close the handle; how this ends
    /// does not matter.
    AttachDesktop,
    /// Find the first output of the first adapter.
    FindPrimaryOutput,
    /// Create the device on that adapter.
    CreateDevice,
    /// Duplicate the output.
    DuplicateOutput,
    /// Drop the duplication that is held.
    DropDuplication,
    /// Let other threads run before the next try.
    Yield,
    /// Unmap the surface that is mapped.
    Unmap,
    /// Release the frame that was acquired.
    ReleaseFrame,
    /// Wait for the next frame, for so many milliseconds at most.
    AcquireNextFrame(u32),
    /// Copy the frame to a texture that the processor can read.
    StageFrame,
    /// Map that texture.
    MapSurface,
}

/// What the capturer says after a step.
#[derive(Debug, Clone, Copy, PartialEq, Eq, Structural)]
pub enum Poll {
    /// The caller makes this call and resumes with its result.
    Pending(Request),
    /// The capturer is open and holds a duplication.
    Opened,
    /// A frame is mapped and can be read until the next capture.
    Frame,
    /// Nothing changed on the screen within the timeout.
    NoNewFrame,
    /// The duplication was made anew.
    Reloaded,
    /// The task failed.
    Failed(CaptureError),
}

/// Where the capturer stands in a task.
#[derive(Debug, Clone, Copy, PartialEq, Eq, Structural)]
pub enum Stage {
    /// No task is under way.
    Idle,
    /// Opening, waiting for the result of this call.
    Opening(Request),
    /// Capturing with this timeout, waiting for the result of this call.
    Capturing(u32, Request),
    /// Making the duplication anew, waiting for the result of this call.
    Reloading(Request),
}

/// The capturer: what it holds and where it stands.
#[derive(Debug, Clone, Copy, PartialEq, Eq, Structural)]
pub struct DXGICapturer {
    /// Whether a duplication of the output is held.
    pub duplication: bool,
    /// Whether a surface is mapped.
    pub surface: bool,
    pub stage: Stage,
}

impl DXGICapturer {
    /// The first step of releasing what a capture left behind, or `then` if
    /// there is nothing to release.
    pub open spec fn release_or(self, then: Request) -> Request {
        if self.surface {
            Request::Unmap
        } else {
            then
        }
    }

    /// The capturer after the call that it waited for ended with `result`,
    /// and what it says next.
    pub open spec fn next(self, result: Result<(), u32>) -> (DXGICapturer, Poll) {
        match self.stage {
            Stage::Idle => (self, Poll::Failed(CaptureError::WinErr(E_HANDLE))),
            Stage::Opening(call) => match (call, result) {
                (Request::AttachDesktop, _) => self.opening(Request::FindPrimaryOutput),
                (Request::OpenInputDesktop, Ok(_)) => self.opening(Request::AttachDesktop),
                (Request::OpenInputDesktop, Err(_)) => self.failed(E_HANDLE),
                (Request::FindPrimaryOutput, Ok(_)) => self.opening(Request::CreateDevice),
                (Request::CreateDevice, Ok(_)) => self.opening(Request::DuplicateOutput),
                (Request::DuplicateOutput, Ok(_)) => (
                    DXGICapturer { duplication: true, surface: self.surface, stage: Stage::Idle },
                    Poll::Opened,
                ),
                (_, Ok(_)) => self.failed(E_HANDLE),
                (_, Err(code)) => self.failed(code),
            },
            Stage::Capturing(timeout_ms, call) => match (call, result) {
                (Request::Unmap, Ok(_)) => DXGICapturer {
                    duplication: self.duplication,
                    surface: false,
                    stage: self.stage,
                }.capturing(timeout_ms, Request::ReleaseFrame),
                (Request::ReleaseFrame, Ok(_)) => self.capturing(
                    timeout_ms,
                    Request::AcquireNextFrame(timeout_ms),
                ),
                (Request::AcquireNextFrame(_), Ok(_)) => self.capturing(
                    timeout_ms,
                    Request::StageFrame,
                ),
                (Request::AcquireNextFrame(_), Err(code)) => if code == DXGI_ERROR_WAIT_TIMEOUT {
                    (
                        DXGICapturer {
                            duplication: self.duplication,
                            surface: self.surface,
                            stage: Stage::Idle,
                        },
                        Poll::NoNewFrame,
                    )
                } else {
                    self.failed(code)
                },
                (Request::StageFrame, Ok(_)) => self.capturing(timeout_ms, Request::MapSurface),
                (Request::MapSurface, Ok(_)) => (
                    DXGICapturer {
                        duplication: self.duplication,
                        surface: true,
                        stage: Stage::Idle,
                    },
                    Poll::Frame,
                ),
                (_, Ok(_)) => self.failed(E_HANDLE),
                (_, Err(code)) => self.failed(code),
            },
            Stage::Reloading(call) => match (call, result) {
                (Request::Unmap, Ok(_)) => DXGICapturer {
                    duplication: self.duplication,
                    surface: false,
                    stage: self.stage,
                }.reloading(Request::ReleaseFrame),
                (Request::ReleaseFrame, Ok(_)) => self.reloading(Request::DropDuplication),
                (Request::DropDuplication, _) => DXGICapturer {
                    duplication: false,
                    surface: self.surface,
                    stage: self.stage,
                }.reloading(Request::DuplicateOutput),
                (Request::DuplicateOutput, Ok(_)) => (
                    DXGICapturer { duplication: true, surface: self.surface, stage: Stage::Idle },
                    Poll::Reloaded,
                ),
                (Request::DuplicateOutput, Err(code)) => if code == E_ACCESSDENIED {
                    self.reloading(Request::Yield)
                } else {
                    self.failed(code)
                },
                (Request::Yield, _) => self.reloading(Request::DuplicateOutput),
                (_, Ok(_)) => self.failed(E_HANDLE),
                (_, Err(code)) => self.failed(code),
            },
        }
    }

    /// Opening goes on with `call`.
    pub open spec fn opening(self, call: Request) -> (DXGICapturer, Poll) {
        (
            DXGICapturer {
                duplication: self.duplication,
                surface: self.surface,
                stage: Stage::Opening(call),
            },
            Poll::Pending(call),
        )
    }

    /// The capture goes on with `call`.
    pub open spec fn capturing(self, timeout_ms: u32, call: Request) -> (DXGICapturer, Poll) {
        (
            DXGICapturer {
                duplication: self.duplication,
                surface: self.surface,
                stage: Stage::Capturing(timeout_ms, call),
            },
            Poll::Pending(call),
        )
    }

    /// The reload goes on with `call`.
    pub open spec fn reloading(self, call: Request) -> (DXGICapturer, Poll) {
        (
            DXGICapturer {
                duplication: self.duplication,
                surface: self.surface,
                stage: Stage::Reloading(call),
            },
            Poll::Pending(call),
        )
    }

    /// The task ends with the failure `code`; what is held stays held.
    pub open spec fn failed(self, code: u32) -> (DXGICapturer, Poll) {
        (
            DXGICapturer {
                duplication: self.duplication,
                surface: self.surface,
                stage: Stage::Idle,
            },
            Poll::Failed(CaptureError::of(code)),
        )
    }

    /// Nothing is held that the stage at hand rules out: a surface is mapped
    /// only under a duplication, none is mapped while the next frame is
    /// fetched, and no duplication is held while one is made.
    pub open spec fn wf(self) -> bool {
        &&& self.surface ==> self.duplication
        &&& match self.stage {
            Stage::Idle => true,
            Stage::Opening(_) => !self.duplication && !self.surface,
            Stage::Capturing(_, call) => self.duplication && match call {
                Request::Unmap => self.surface,
                Request::ReleaseFrame | Request::AcquireNextFrame(_) | Request::StageFrame
                | Request::MapSurface => !self.surface,
                _ => false,
            },
            Stage::Reloading(call) => match call {
                Request::Unmap => self.surface && self.duplication,
                Request::ReleaseFrame | Request::DropDuplication => !self.surface
                    && self.duplication,
                Request::DuplicateOutput | Request::Yield => !self.surface && !self.duplication,
                _ => false,
            },
        }
    }

    /// A capturer that holds nothing, and its first call: opening starts with
    /// the desktop that receives input.
    pub fn new() -> (out: (DXGICapturer, Poll))
        ensures
            out.0.wf(),
            out.0 == (DXGICapturer {
                duplication: false,
                surface: false,
                stage: Stage::Opening(Request::OpenInputDesktop),
            }),
            out.1 == Poll::Pending(Request::OpenInputDesktop),
    {
        (
            DXGICapturer {
                duplication: false,
                surface: false,
                stage: Stage::Opening(Request::OpenInputDesktop),
            },
            Poll::Pending(Request::OpenInputDesktop),
        )
    }

    /// Whether a task can start: none is under way and a duplication is
    /// held.
    pub fn is_ready(&self) -> (b: bool)
        ensures
            b == (self.stage == Stage::Idle && self.duplication),
    {
        match self.stage {
            Stage::Idle => self.duplication,
            _ => false,
        }
    }

    /// Starts the capture of a frame with a timeout of `timeout_ms`
    /// milliseconds. What the last capture left mapped is released first.
    pub fn capture_frame(&mut self, timeout_ms: u32) -> (poll: Poll)
        requires
            old(self).wf(),
            old(self).stage == Stage::Idle,
            old(self).duplication,
        ensures
            final(self).wf(),
            (*final(self), poll) == old(self).capturing(
                timeout_ms,
                old(self).release_or(Request::AcquireNextFrame(timeout_ms)),
            ),
    {
        let call = if self.surface {
            Request::Unmap
        } else {
            Request::AcquireNextFrame(timeout_ms)
        };
        self.stage = Stage::Capturing(timeout_ms, call);
        Poll::Pending(call)
    }

    /// Starts making the duplication anew. What is mapped is released first,
    /// then the duplication that is held, and only then is the new one made.
    pub fn reload(&mut self) -> (poll: Poll)
        requires
            old(self).wf(),
            old(self).stage == Stage::Idle,
            old(self).duplication,
        ensures
            final(self).wf(),
            (*final(self), poll) == old(self).reloading(
                old(self).release_or(Request::DropDuplication),
            ),
    {
        let call = if self.surface {
            Request::Unmap
        } else {
            Request::DropDuplication
        };
        self.stage = Stage::Reloading(call);
        Poll::Pending(call)
    }

    /// Goes on with the task at hand after the call that was asked for ended
    /// with `result`: `Ok`, or the failure code.
    pub fn resume(&mut self, result: Result<(), u32>) -> (poll: Poll)
        requires
            old(self).wf(),
            old(self).stage != Stage::Idle,
        ensures
            final(self).wf(),
            (*final(self), poll) == old(self).next(result),
    {
        let (stage, poll) = match self.stage {
            Stage::Idle => (Stage::Idle, Poll::Failed(CaptureError::WinErr(E_HANDLE))),
            Stage::Opening(call) => match (call, result) {
                (Request::AttachDesktop, _) => pending_open(Request::FindPrimaryOutput),
                (Request::OpenInputDesktop, Ok(_)) => pending_open(Request::AttachDesktop),
                (Request::OpenInputDesktop, Err(_)) => fail(E_HANDLE),
                (Request::FindPrimaryOutput, Ok(_)) => pending_open(Request::CreateDevice),
                (Request::CreateDevice, Ok(_)) => pending_open(Request::DuplicateOutput),
                (Request::DuplicateOutput, Ok(_)) => {
                    self.duplication = true;
                    (Stage::Idle, Poll::Opened)
                },
                (_, Ok(_)) => fail(E_HANDLE),
                (_, Err(code)) => fail(code),
            },
            Stage::Capturing(timeout_ms, call) => match (call, result) {
                (Request::Unmap, Ok(_)) => {
                    self.surface = false;
                    pending_capture(timeout_ms, Request::ReleaseFrame)
                },
                (Request::ReleaseFrame, Ok(_)) => pending_capture(
                    timeout_ms,
                    Request::AcquireNextFrame(timeout_ms),
                ),
                (Request::AcquireNextFrame(_), Ok(_)) => pending_capture(
                    timeout_ms,
                    Request::StageFrame,
                ),
                (Request::AcquireNextFrame(_), Err(code)) => if code == DXGI_ERROR_WAIT_TIMEOUT {
                    (Stage::Idle, Poll::NoNewFrame)
                } else {
                    fail(code)
                },
                (Request::StageFrame, Ok(_)) => pending_capture(timeout_ms, Request::MapSurface),
                (Request::MapSurface, Ok(_)) => {
                    self.surface = true;
                    (Stage::Idle, Poll::Frame)
                },
                (_, Ok(_)) => fail(E_HANDLE),
                (_, Err(code)) => fail(code),
            },
            Stage::Reloading(call) => match (call, result) {
                (Request::Unmap, Ok(_)) => {
                    self.surface = false;
                    pending_reload(Request::ReleaseFrame)
                },
                (Request::ReleaseFrame, Ok(_)) => pending_reload(Request::DropDuplication),
                (Request::DropDuplication, _) => {
                    self.duplication = false;
                    pending_reload(Request::DuplicateOutput)
                },
                (Request::DuplicateOutput, Ok(_)) => {
                    self.duplication = true;
                    (Stage::Idle, Poll::Reloaded)
                },
                (Request::DuplicateOutput, Err(code)) => if code == E_ACCESSDENIED {
                    pending_reload(Request::Yield)
                } else {
                    fail(code)
                },
                (Request::Yield, _) => pending_reload(Request::DuplicateOutput),
                (_, Ok(_)) => fail(E_HANDLE),
                (_, Err(code)) => fail(code),
            },
        };
        self.stage = stage;
        poll
    }
}

fn pending_open(call: Request) -> (out: (Stage, Poll))
    ensures
        out == (Stage::Opening(call), Poll::Pending(call)),
{
    (Stage::Opening(call), Poll::Pending(call))
}

fn pending_capture(timeout_ms: u32, call: Request) -> (out: (Stage, Poll))
    ensures
        out == (Stage::Capturing(timeout_ms, call), Poll::Pending(call)),
{
    (Stage::Capturing(timeout_ms, call), Poll::Pending(call))
}

fn pending_reload(call: Request) -> (out: (Stage, Poll))
    ensures
        out == (Stage::Reloading(call), Poll::Pending(call)),
{
    (Stage::Reloading(call), Poll::Pending(call))
}

fn fail(code: u32) -> (out: (Stage, Poll))
    ensures
        out == (Stage::Idle, Poll::Failed(CaptureError::of(code))),
{
    (Stage::Idle, Poll::Failed(CaptureError::from(code)))
}

/// At most one surface is mapped at a time: the capturer asks for a mapping
/// only while it holds none, and a frame is handed out only under the
/// duplication that it came from.
pub proof fn lemma_one_mapping(c: DXGICapturer, result: Result<(), u32>)
    requires
        c.wf(),
    ensures
        c.next(result).0.wf(),
        c.next(result).1 == Poll::Pending(Request::MapSurface) ==> !c.next(result).0.surface,
        c.next(result).1 == Poll::Frame ==> c.next(result).0.surface && c.next(
            result,
        ).0.duplication,
{
}

/// At most one duplication is held at a time: the capturer asks for one only
/// while it holds none; and a reload that was denied gives way to other
/// threads before it tries again.
pub proof fn lemma_one_duplication(c: DXGICapturer, result: Result<(), u32>)
    requires
        c.wf(),
    ensures
        c.next(result).1 == Poll::Pending(Request::DuplicateOutput) ==> !c.next(
            result,
        ).0.duplication,
        c.stage == Stage::Reloading(Request::DuplicateOutput) && result == Err::<(), u32>(
            E_ACCESSDENIED,
        ) ==> c.next(result).1 == Poll::Pending(Request::Yield),
{
}

/// A timeout is no failure, a lost duplication is told apart from every
/// other failure, and a failure leaves the capturer ready for a reload
/// wherever it still holds a duplication.
pub proof fn lemma_capture_outcomes(c: DXGICapturer, timeout_ms: u32, code: u32)
    requires
        c.wf(),
        c.stage == Stage::Capturing(timeout_ms, Request::AcquireNextFrame(timeout_ms)),
    ensures
        code == DXGI_ERROR_WAIT_TIMEOUT ==> c.next(Err(code)).1 == Poll::NoNewFrame,
        code == DXGI_ERROR_ACCESS_LOST ==> c.next(Err(code)).1 == Poll::Failed(
            CaptureError::AccessLost,
        ),
        code != DXGI_ERROR_WAIT_TIMEOUT && code != DXGI_ERROR_ACCESS_LOST ==> c.next(Err(code)).1
            == Poll::Failed(CaptureError::WinErr(code)),
        c.next(Err(code)).0.stage == Stage::Idle,
        c.next(Err(code)).0.duplication,
{
}

} // verus!
