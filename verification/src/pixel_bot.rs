//! The runtime that owns the two workers: what starting, stopping and
//! reloading them comes to, and what the workers send out.

use crate::config::Config;
use crate::coord::Coord;
use crate::image::Image;
use std::time::Duration;
use vstd::prelude::*;

verus! {

/// What `start` says when the workers run already.
pub const ERR_ALREADY_STARTED: &'static str = "Already started";

/// What `stop` says when no worker runs.
pub const ERR_ALREADY_STOPPED: &'static str = "Already stopped";

/// What `reload` says when no worker runs.
pub const ERR_NOT_STARTED: &'static str = "Not Started";

/// A cropped frame with what was found in it.
#[derive(Debug)]
pub struct CapData {
    pub img: Image,
    pub target_coords: Option<Vec<Coord<usize>>>,
    pub aim_coord: Option<Coord<usize>>,
}

/// What the aim worker sends out, to whoever shows it.
#[derive(Debug)]
pub enum Message {
    /// How long an iteration took.
    IterTime(Duration),
    /// What an iteration saw.
    CaptureData(CapData),
}

/// What the runtime tells a worker.
#[derive(Debug, Clone, Copy, PartialEq, Eq, Structural)]
pub enum ThreadMsg {
    Stop,
    Reload,
}

/// One of the two workers.
#[derive(Debug, Clone, Copy, PartialEq, Eq, Structural)]
pub enum Worker {
    Aim,
    Click,
}

/// What the runtime has the caller do.
#[derive(Debug, Clone, Copy, PartialEq, Eq, Structural)]
pub enum Command {
    /// Start the worker on the pointer device.
    Spawn(Worker, i32),
    /// Put the message on the worker's channel.
    Send(Worker, ThreadMsg),
    /// Wait for the worker to end.
    Join(Worker),
}

/// The runtime: which workers run and whether their channels are open.
#[derive(Debug)]
pub struct PixelBot {
    pub handles: Vec<Worker>,
    pub aim_thread_sender: bool,
    pub click_thread_sender: bool,
    pub mouse_dev: Option<i32>,
}

impl PixelBot {
    /// Whether the workers run.
    pub open spec fn running(&self) -> bool {
        self.handles@.len() > 0
    }

    /// While workers run they are the two, their channels are open and the
    /// device is known.
    pub open spec fn wf(&self) -> bool {
        self.running() ==> {
            &&& self.handles@ == seq![Worker::Aim, Worker::Click]
            &&& self.aim_thread_sender
            &&& self.click_thread_sender
            &&& self.mouse_dev is Some
        }
    }

    /// A runtime with nothing started.
    pub fn new() -> (bot: Self)
        ensures
            bot.wf(),
            !bot.running(),
            !bot.aim_thread_sender,
            !bot.click_thread_sender,
            bot.mouse_dev is None,
    {
        Self {
            handles: Vec::new(),
            aim_thread_sender: false,
            click_thread_sender: false,
            mouse_dev: None,
        }
    }

    /// The first half of starting: refused while the workers run; else both
    /// channels are opened, and the caller goes to find the pointer device.
    pub fn start(&mut self) -> (res: Result<(), &'static str>)
        requires
            old(self).wf(),
        ensures
            final(self).wf(),
            final(self).handles == old(self).handles,
            final(self).mouse_dev == old(self).mouse_dev,
            old(self).running() ==> res == Err::<(), &'static str>(ERR_ALREADY_STARTED) && *final(self) == *old(self),
            !old(self).running() ==> res is Ok && final(self).aim_thread_sender && final(self).click_thread_sender,
    {
        if !self.handles.is_empty() {
            return Err(ERR_ALREADY_STARTED);
        }
        self.aim_thread_sender = true;
        self.click_thread_sender = true;
        Ok(())
    }

    /// The second half of starting, with what the search for the pointer
    /// device gave. A failed search is handed on, and the channels stay open;
    /// a device has both workers spawned on it, the aim worker first.
    pub fn mouse_found(&mut self, mouse_dev: Result<i32, &'static str>) -> (res: Result<
        Vec<Command>,
        &'static str,
    >)
        requires
            !old(self).running(),
            old(self).aim_thread_sender,
            old(self).click_thread_sender,
        ensures
            final(self).wf(),
            match mouse_dev {
                Ok(dev) => res is Ok && res.unwrap()@ == seq![
                    Command::Spawn(Worker::Aim, dev),
                    Command::Spawn(Worker::Click, dev),
                ] && final(self).running() && final(self).mouse_dev == Some(dev),
                Err(e) => res == Err::<Vec<Command>, &'static str>(e) && *final(self) == *old(self),
            },
    {
        match mouse_dev {
            Err(e) => Err(e),
            Ok(dev) => {
                self.mouse_dev = Some(dev);
                self.handles.push(Worker::Aim);
                self.handles.push(Worker::Click);
                let mut commands: Vec<Command> = Vec::new();
                commands.push(Command::Spawn(Worker::Aim, dev));
                commands.push(Command::Spawn(Worker::Click, dev));
                proof {
                    assert(self.handles@ =~= seq![Worker::Aim, Worker::Click]);
                    assert(commands@ =~= seq![
                        Command::Spawn(Worker::Aim, dev),
                        Command::Spawn(Worker::Click, dev),
                    ]);
                }
                Ok(commands)
            },
        }
    }

    /// Stops the workers: refused when none runs; else each is told to stop,
    /// its channel is closed, and the workers are waited for, the one started
    /// last first.
    pub fn stop(&mut self) -> (res: Result<Vec<Command>, &'static str>)
        requires
            old(self).wf(),
        ensures
            final(self).wf(),
            !final(self).running(),
            final(self).mouse_dev == old(self).mouse_dev,
            !old(self).running() ==> res == Err::<Vec<Command>, &'static str>(ERR_ALREADY_STOPPED)
                && *final(self) == *old(self),
            old(self).running() ==> res is Ok && res.unwrap()@ == seq![
                Command::Send(Worker::Aim, ThreadMsg::Stop),
                Command::Send(Worker::Click, ThreadMsg::Stop),
                Command::Join(Worker::Click),
                Command::Join(Worker::Aim),
            ] && !final(self).aim_thread_sender && !final(self).click_thread_sender,
    {
        if self.handles.is_empty() {
            return Err(ERR_ALREADY_STOPPED);
        }
        let mut commands: Vec<Command> = Vec::new();
        self.aim_thread_sender = false;
        commands.push(Command::Send(Worker::Aim, ThreadMsg::Stop));
        self.click_thread_sender = false;
        commands.push(Command::Send(Worker::Click, ThreadMsg::Stop));
        let ghost sent = commands@;
        loop
            invariant
                self.mouse_dev == old(self).mouse_dev,
                !self.aim_thread_sender,
                !self.click_thread_sender,
                self.handles@.len() <= 2,
                self.handles@ == seq![Worker::Aim, Worker::Click].take(self.handles@.len() as int),
                sent == seq![
                    Command::Send(Worker::Aim, ThreadMsg::Stop),
                    Command::Send(Worker::Click, ThreadMsg::Stop),
                ],
                commands@ == sent + if self.handles@.len() == 2 {
                    Seq::<Command>::empty()
                } else if self.handles@.len() == 1 {
                    seq![Command::Join(Worker::Click)]
                } else {
                    seq![Command::Join(Worker::Click), Command::Join(Worker::Aim)]
                },
            ensures
                self.handles@.len() == 0,
            decreases self.handles@.len(),
        {
            match self.handles.pop() {
                Some(handle) => {
                    commands.push(Command::Join(handle));
                },
                None => {
                    break ;
                },
            }
        }
        proof {
            assert(commands@ =~= seq![
                Command::Send(Worker::Aim, ThreadMsg::Stop),
                Command::Send(Worker::Click, ThreadMsg::Stop),
                Command::Join(Worker::Click),
                Command::Join(Worker::Aim),
            ]);
        }
        Ok(commands)
    }

    /// Has the workers read the configuration again: refused when none runs;
    /// else each is sent a reload, the aim worker first.
    pub fn reload(&mut self) -> (res: Result<Vec<Command>, &'static str>)
        requires
            old(self).wf(),
        ensures
            *final(self) == *old(self),
            !old(self).running() ==> res == Err::<Vec<Command>, &'static str>(ERR_NOT_STARTED),
            old(self).running() ==> res is Ok && res.unwrap()@ == seq![
                Command::Send(Worker::Aim, ThreadMsg::Reload),
                Command::Send(Worker::Click, ThreadMsg::Reload),
            ],
    {
        if self.handles.is_empty() {
            return Err(ERR_NOT_STARTED);
        }
        let mut commands: Vec<Command> = Vec::new();
        commands.push(Command::Send(Worker::Aim, ThreadMsg::Reload));
        commands.push(Command::Send(Worker::Click, ThreadMsg::Reload));
        proof {
            assert(commands@ =~= seq![
                Command::Send(Worker::Aim, ThreadMsg::Reload),
                Command::Send(Worker::Click, ThreadMsg::Reload),
            ]);
        }
        Ok(commands)
    }

    /// Tells the workers of a change to the configuration: where `cfg` is
    /// marked as changed, both workers are sent a reload and the mark is
    /// cleared, in that order, so that no change goes unnoticed; where it is
    /// not marked, nothing is sent. While no worker runs the reload is
    /// refused and the mark stays.
    pub fn reload_if_dirty(&mut self, cfg: &mut Config) -> (res: Option<
        Result<Vec<Command>, &'static str>,
    >)
        requires
            old(self).wf(),
        ensures
            *final(self) == *old(self),
            final(cfg)@ == old(cfg)@,
            !old(cfg).dirty() ==> res is None && !final(cfg).dirty(),
            old(cfg).dirty() && !old(self).running() ==> res == Some(
                Err::<Vec<Command>, &'static str>(ERR_NOT_STARTED),
            ) && final(cfg).dirty(),
            old(cfg).dirty() && old(self).running() ==> res is Some && res.unwrap() is Ok
                && res.unwrap().unwrap()@ == seq![
                Command::Send(Worker::Aim, ThreadMsg::Reload),
                Command::Send(Worker::Click, ThreadMsg::Reload),
            ] && !final(cfg).dirty(),
    {
        if !cfg.is_dirty() {
            return None;
        }
        let sent = self.reload();
        if sent.is_ok() {
            cfg.mark_clean();
        }
        Some(sent)
    }
}

} // verus!
