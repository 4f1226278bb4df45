//! What the program does about its configuration before the workers start:
//! which configuration to go on with when the file could not be read, and
//! the bounds that the screen sets on the crop.

use crate::config::text::ParseError;
use crate::config::Bounded;
use crate::config::CfgKey;
use crate::config::Config;
use crate::config::ValType;
use vstd::prelude::*;

verus! {

/// How the reading of the configuration file ended.
#[derive(Debug)]
pub enum Loaded {
    /// The file held a whole configuration.
    Read(Config),
    /// There is no file.
    NotFound,
    /// The file could not be read.
    Unreadable,
    /// The text of the file was not taken, or not all keys stand in it.
    Rejected(ParseError),
}

/// The configuration to go on with, and what to do and to say about it.
#[derive(Debug)]
pub struct Startup {
    pub config: Config,
    /// Whether the defaults are to be saved to the file.
    pub save_default: bool,
    /// Whether the defaults took the place of a file that was not taken.
    pub fell_back: bool,
}

/// The configuration to go on with after the file was read: what the file
/// held; with the defaults for the keys that it left out; or the defaults
/// altogether, which are saved where there was no file.
pub fn choose_config(loaded: Loaded) -> (startup: Startup)
    requires
        loaded matches Loaded::Read(cfg) ==> cfg.wf(),
        loaded matches Loaded::Rejected(ParseError::NotExhaustive(cfg, _)) ==> cfg.wf(),
    ensures
        startup.config.wf(),
        match loaded {
            Loaded::Read(cfg) => startup.config == cfg && !startup.save_default
                && !startup.fell_back,
            Loaded::NotFound => is_default(&startup.config) && startup.save_default
                && !startup.fell_back,
            Loaded::Unreadable => is_default(&startup.config) && !startup.save_default
                && !startup.fell_back,
            Loaded::Rejected(ParseError::NotExhaustive(cfg, _)) => startup.config == cfg
                && !startup.save_default && !startup.fell_back,
            Loaded::Rejected(_) => is_default(&startup.config) && !startup.save_default
                && startup.fell_back,
        },
{
    match loaded {
        Loaded::Read(cfg) => Startup { config: cfg, save_default: false, fell_back: false },
        Loaded::NotFound => Startup {
            config: Config::default(),
            save_default: true,
            fell_back: false,
        },
        Loaded::Unreadable => Startup {
            config: Config::default(),
            save_default: false,
            fell_back: false,
        },
        Loaded::Rejected(ParseError::NotExhaustive(ne_cfg, _)) => Startup {
            config: ne_cfg,
            save_default: false,
            fell_back: false,
        },
        Loaded::Rejected(_) => Startup {
            config: Config::default(),
            save_default: false,
            fell_back: true,
        },
    }
}

/// `cfg` holds the default for every key and is unmarked.
pub open spec fn is_default(cfg: &Config) -> bool {
    &&& !cfg.dirty()
    &&& forall|k: CfgKey| #![trigger cfg@[k]] cfg@[k] == k.default_spec()
}

/// The greatest crop on a side of a screen that is `side` pixels long: one
/// less than half of it.
pub open spec fn greatest_crop(side: u32) -> u32 {
    (side / 2 - 1) as u32
}

/// Sets the bounds of the crop so that a crop always leaves something of a
/// screen of `screen_w` by `screen_h`, and clears the mark. Where the crop
/// that is configured is too wide or too high for the screen already, the
/// bounds of that side are refused and stay as they were.
pub fn fit_to_screen(cfg: &mut Config, screen_w: u32, screen_h: u32) -> (res: (
    Result<(), &'static str>,
    Result<(), &'static str>,
))
    requires
        old(cfg).wf(),
        screen_w >= 2,
        screen_h >= 2,
    ensures
        final(cfg).wf(),
        !final(cfg).dirty(),
        res.0 is Ok <==> old(cfg)@[CfgKey::CropW].number() <= greatest_crop(screen_w),
        res.1 is Ok <==> old(cfg)@[CfgKey::CropH].number() <= greatest_crop(screen_h),
        final(cfg)@[CfgKey::CropW] == if res.0 is Ok {
            ValType::Unsigned(
                Bounded {
                    val: old(cfg)@[CfgKey::CropW].number(),
                    min: 0,
                    max: greatest_crop(screen_w),
                },
            )
        } else {
            old(cfg)@[CfgKey::CropW]
        },
        final(cfg)@[CfgKey::CropH] == if res.1 is Ok {
            ValType::Unsigned(
                Bounded {
                    val: old(cfg)@[CfgKey::CropH].number(),
                    min: 0,
                    max: greatest_crop(screen_h),
                },
            )
        } else {
            old(cfg)@[CfgKey::CropH]
        },
        forall|k: CfgKey|
            k != CfgKey::CropW && k != CfgKey::CropH ==> #[trigger] final(cfg)@[k] == old(cfg)@[k],
{
    let crop_w = ValType::Unsigned(Bounded::new(0, 0, (screen_w / 2) - 1));
    let crop_h = ValType::Unsigned(Bounded::new(0, 0, (screen_h / 2) - 1));
    assert(old(cfg)@[CfgKey::CropW] is Unsigned && old(cfg)@[CfgKey::CropH] is Unsigned);
    let w = cfg.set_bounds(CfgKey::CropW, crop_w);
    let h = cfg.set_bounds(CfgKey::CropH, crop_h);
    cfg.mark_clean();
    (w, h)
}

} // verus!
