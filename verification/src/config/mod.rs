//! The parameters of the pipeline: a closed set of keys, each with a typed
//! value that stays inside its own bounds.
//!
//! Fractions are held in thousandths.

use crate::fx::map_contains;
use crate::fx::map_get;
use crate::fx::map_insert;
use crate::image::Color;
use rustc_hash::FxHashMap;
use vstd::prelude::*;

pub mod message;
pub mod names;
pub mod number;
pub mod render;
pub mod text;

verus! {

/// How many keys there are.
pub const N_CFG_KEYS: usize = 16;

/// What `set_val` says of a value outside the bounds of its key.
pub const ERR_NOT_IN_BOUNDS: &'static str = "Value not in bounds";

/// What `set_bounds` says of a key whose value has no bounds.
pub const ERR_NO_BOUNDS: &'static str = "No bounds to set";

/// The name of a parameter.
#[derive(Debug, Hash, PartialEq, Eq, Clone, Copy, Structural)]
pub enum CfgKey {
    CropW,
    CropH,
    ColorThresh,
    AimDivisor,
    YMultiplier,
    Fps,
    MaxAutoclickSleepMs,
    MinAutoclickSleepMs,
    AimDurationMicros,
    AimSteps,
    AimKeycode,
    AutoclickKeycode,
    ToggleAimKeycode,
    ToggleAutoclickKeycode,
    FakeLmbKeycode,
    TargetColor,
}

/// A value together with the least and the greatest value that it may take.
#[derive(Debug, PartialEq, Eq, Clone, Copy, Structural)]
pub struct Bounded<T> {
    pub val: T,
    pub min: T,
    pub max: T,
}

impl<T> Bounded<T> {
    pub fn new(val: T, min: T, max: T) -> (b: Self)
        ensures
            b.val == val,
            b.min == min,
            b.max == max,
    {
        Self { val, min, max }
    }
}

impl Bounded<u32> {
    /// Whether `v` lies inside the bounds.
    pub open spec fn admits(self, v: u32) -> bool {
        self.min <= v <= self.max
    }

    /// Whether `v` lies inside the bounds.
    pub fn contains(&self, v: u32) -> (b: bool)
        ensures
            b == self.admits(v),
    {
        self.min <= v && v <= self.max
    }
}

/// The value of a parameter.
#[derive(Debug, PartialEq, Clone, Copy)]
pub enum ValType {
    /// A virtual key code.
    Keycode(u16),
    /// A whole number inside bounds.
    Unsigned(Bounded<u32>),
    /// A fraction inside bounds, all three in thousandths.
    Decimal(Bounded<u32>),
    /// An opaque colour.
    ColorRgb8(Color<u8>),
}

impl ValType {
    /// Whether `self` and `other` are values of one kind.
    pub open spec fn same_kind(self, other: ValType) -> bool {
        match self {
            ValType::Keycode(_) => other is Keycode,
            ValType::Unsigned(_) => other is Unsigned,
            ValType::Decimal(_) => other is Decimal,
            ValType::ColorRgb8(_) => other is ColorRgb8,
        }
    }

    /// A value with bounds lies inside them.
    pub open spec fn in_bounds(self) -> bool {
        match self {
            ValType::Unsigned(b) => b.admits(b.val),
            ValType::Decimal(b) => b.admits(b.val),
            _ => true,
        }
    }

    /// The key code that the value is; zero for a value of another kind.
    pub open spec fn keycode(self) -> u16 {
        match self {
            ValType::Keycode(k) => k,
            _ => 0,
        }
    }

    /// The number that the value holds, a fraction in thousandths; zero for
    /// a value without a number.
    pub open spec fn number(self) -> u32 {
        match self {
            ValType::Unsigned(b) => b.val,
            ValType::Decimal(b) => b.val,
            _ => 0,
        }
    }

    /// The colour that the value is; black for a value of another kind.
    pub open spec fn color(self) -> Color<u8> {
        match self {
            ValType::ColorRgb8(c) => c,
            _ => Color { r: 0, g: 0, b: 0, a: 0 },
        }
    }

    /// The key code that the value is.
    pub fn into_keycode(self) -> (k: u16)
        requires
            self is Keycode,
        ensures
            k == self.keycode(),
    {
        match self {
            ValType::Keycode(k) => k,
            _ => 0,
        }
    }

    /// The bounded number that the value is.
    pub fn into_bounded(self) -> (b: Bounded<u32>)
        requires
            self is Unsigned || self is Decimal,
        ensures
            self matches ValType::Unsigned(u) ==> b == u,
            self matches ValType::Decimal(d) ==> b == d,
            b.val == self.number(),
    {
        match self {
            ValType::Unsigned(b) => b,
            ValType::Decimal(b) => b,
            _ => Bounded { val: 0, min: 0, max: 0 },
        }
    }

    /// The colour that the value is.
    pub fn into_color(self) -> (c: Color<u8>)
        requires
            self is ColorRgb8,
        ensures
            c == self.color(),
    {
        match self {
            ValType::ColorRgb8(c) => c,
            _ => Color { r: 0, g: 0, b: 0, a: 0 },
        }
    }
}

impl CfgKey {
    /// The place of the key in the order of the keys.
    pub open spec fn index(self) -> usize {
        match self {
            CfgKey::CropW => 0,
            CfgKey::CropH => 1,
            CfgKey::ColorThresh => 2,
            CfgKey::AimDivisor => 3,
            CfgKey::YMultiplier => 4,
            CfgKey::Fps => 5,
            CfgKey::MaxAutoclickSleepMs => 6,
            CfgKey::MinAutoclickSleepMs => 7,
            CfgKey::AimDurationMicros => 8,
            CfgKey::AimSteps => 9,
            CfgKey::AimKeycode => 10,
            CfgKey::AutoclickKeycode => 11,
            CfgKey::ToggleAimKeycode => 12,
            CfgKey::ToggleAutoclickKeycode => 13,
            CfgKey::FakeLmbKeycode => 14,
            CfgKey::TargetColor => 15,
        }
    }

    /// The key at place `i`.
    pub open spec fn at(i: int) -> CfgKey {
        if i == 0 {
            CfgKey::CropW
        } else if i == 1 {
            CfgKey::CropH
        } else if i == 2 {
            CfgKey::ColorThresh
        } else if i == 3 {
            CfgKey::AimDivisor
        } else if i == 4 {
            CfgKey::YMultiplier
        } else if i == 5 {
            CfgKey::Fps
        } else if i == 6 {
            CfgKey::MaxAutoclickSleepMs
        } else if i == 7 {
            CfgKey::MinAutoclickSleepMs
        } else if i == 8 {
            CfgKey::AimDurationMicros
        } else if i == 9 {
            CfgKey::AimSteps
        } else if i == 10 {
            CfgKey::AimKeycode
        } else if i == 11 {
            CfgKey::AutoclickKeycode
        } else if i == 12 {
            CfgKey::ToggleAimKeycode
        } else if i == 13 {
            CfgKey::ToggleAutoclickKeycode
        } else if i == 14 {
            CfgKey::FakeLmbKeycode
        } else {
            CfgKey::TargetColor
        }
    }

    /// The value that a parameter has until it is set.
    pub open spec fn default_spec(self) -> ValType {
        match self {
            CfgKey::CropW => ValType::Unsigned(Bounded { val: 1152, min: 0, max: 2559 }),
            CfgKey::CropH => ValType::Unsigned(Bounded { val: 592, min: 0, max: 1439 }),
            CfgKey::ColorThresh => ValType::Decimal(Bounded { val: 830, min: 1, max: 999 }),
            CfgKey::AimDivisor => ValType::Decimal(Bounded { val: 3000, min: 1000, max: 10000 }),
            CfgKey::YMultiplier => ValType::Decimal(Bounded { val: 900, min: 0, max: 1000 }),
            CfgKey::Fps => ValType::Unsigned(Bounded { val: 144, min: 1, max: 240 }),
            CfgKey::MaxAutoclickSleepMs => ValType::Unsigned(
                Bounded { val: 90, min: 0, max: 100 },
            ),
            CfgKey::MinAutoclickSleepMs => ValType::Unsigned(
                Bounded { val: 50, min: 0, max: 100 },
            ),
            CfgKey::AimDurationMicros => ValType::Unsigned(Bounded { val: 50, min: 0, max: 2000 }),
            CfgKey::AimSteps => ValType::Unsigned(Bounded { val: 2, min: 1, max: 10 }),
            CfgKey::AimKeycode => ValType::Keycode(1),
            CfgKey::AutoclickKeycode => ValType::Keycode(1),
            CfgKey::ToggleAimKeycode => ValType::Keycode(190),
            CfgKey::ToggleAutoclickKeycode => ValType::Keycode(188),
            CfgKey::FakeLmbKeycode => ValType::Keycode(4),
            CfgKey::TargetColor => ValType::ColorRgb8(Color { r: 196, g: 58, b: 172, a: 255 }),
        }
    }

    /// The place of the key in the order of the keys.
    pub fn to_index(&self) -> (i: usize)
        ensures
            i == self.index(),
            i < N_CFG_KEYS,
            CfgKey::at(i as int) == *self,
    {
        match *self {
            CfgKey::CropW => 0,
            CfgKey::CropH => 1,
            CfgKey::ColorThresh => 2,
            CfgKey::AimDivisor => 3,
            CfgKey::YMultiplier => 4,
            CfgKey::Fps => 5,
            CfgKey::MaxAutoclickSleepMs => 6,
            CfgKey::MinAutoclickSleepMs => 7,
            CfgKey::AimDurationMicros => 8,
            CfgKey::AimSteps => 9,
            CfgKey::AimKeycode => 10,
            CfgKey::AutoclickKeycode => 11,
            CfgKey::ToggleAimKeycode => 12,
            CfgKey::ToggleAutoclickKeycode => 13,
            CfgKey::FakeLmbKeycode => 14,
            CfgKey::TargetColor => 15,
        }
    }

    /// The key at place `i`, if there is one.
    pub fn from_index(i: usize) -> (key: Option<CfgKey>)
        ensures
            i < N_CFG_KEYS ==> key == Some(CfgKey::at(i as int)) && CfgKey::at(i as int).index()
                == i,
            i >= N_CFG_KEYS ==> key is None,
    {
        match i {
            0 => Some(CfgKey::CropW),
            1 => Some(CfgKey::CropH),
            2 => Some(CfgKey::ColorThresh),
            3 => Some(CfgKey::AimDivisor),
            4 => Some(CfgKey::YMultiplier),
            5 => Some(CfgKey::Fps),
            6 => Some(CfgKey::MaxAutoclickSleepMs),
            7 => Some(CfgKey::MinAutoclickSleepMs),
            8 => Some(CfgKey::AimDurationMicros),
            9 => Some(CfgKey::AimSteps),
            10 => Some(CfgKey::AimKeycode),
            11 => Some(CfgKey::AutoclickKeycode),
            12 => Some(CfgKey::ToggleAimKeycode),
            13 => Some(CfgKey::ToggleAutoclickKeycode),
            14 => Some(CfgKey::FakeLmbKeycode),
            15 => Some(CfgKey::TargetColor),
            _ => None,
        }
    }

    /// Every key, in order.
    pub fn iter() -> (keys: Vec<CfgKey>)
        ensures
            keys@.len() == N_CFG_KEYS,
            forall|i: int| 0 <= i < N_CFG_KEYS ==> keys@[i] == CfgKey::at(i),
    {
        let mut keys: Vec<CfgKey> = Vec::new();
        let mut i: usize = 0;
        while i < N_CFG_KEYS
            invariant
                i <= N_CFG_KEYS,
                keys@.len() == i,
                forall|k: int| 0 <= k < i ==> keys@[k] == CfgKey::at(k),
            decreases N_CFG_KEYS - i,
        {
            match CfgKey::from_index(i) {
                Some(key) => keys.push(key),
                None => {},
            }
            i += 1;
        }
        keys
    }

    /// The value that a parameter has until it is set.
    pub fn default_val(&self) -> (v: ValType)
        ensures
            v == self.default_spec(),
            v.in_bounds(),
    {
        match *self {
            CfgKey::CropW => ValType::Unsigned(Bounded::new(1152, 0, 2560 - 1)),
            CfgKey::CropH => ValType::Unsigned(Bounded::new(592, 0, 1440 - 1)),
            CfgKey::ColorThresh => ValType::Decimal(Bounded::new(830, 1, 999)),
            CfgKey::AimDivisor => ValType::Decimal(Bounded::new(3000, 1000, 10000)),
            CfgKey::YMultiplier => ValType::Decimal(Bounded::new(900, 0, 1000)),
            CfgKey::Fps => ValType::Unsigned(Bounded::new(144, 1, 240)),
            CfgKey::MaxAutoclickSleepMs => ValType::Unsigned(Bounded::new(90, 0, 100)),
            CfgKey::MinAutoclickSleepMs => ValType::Unsigned(Bounded::new(50, 0, 100)),
            CfgKey::AimDurationMicros => ValType::Unsigned(Bounded::new(50, 0, 2000)),
            CfgKey::AimSteps => ValType::Unsigned(Bounded::new(2, 1, 10)),
            CfgKey::AimKeycode => ValType::Keycode(1),
            CfgKey::AutoclickKeycode => ValType::Keycode(1),
            CfgKey::ToggleAimKeycode => ValType::Keycode(190),
            CfgKey::ToggleAutoclickKeycode => ValType::Keycode(188),
            CfgKey::FakeLmbKeycode => ValType::Keycode(4),
            CfgKey::TargetColor => ValType::ColorRgb8(Color::new(196, 58, 172, 255)),
        }
    }

    /// Whether the parameter is a key code.
    pub fn is_keycode(&self) -> (b: bool)
        ensures
            b == (self.default_spec() is Keycode),
    {
        match self.default_val() {
            ValType::Keycode(_) => true,
            _ => false,
        }
    }
}

/// The keys are numbered from nought without gaps, each once.
pub proof fn lemma_key_index(key: CfgKey)
    ensures
        key.index() < N_CFG_KEYS,
        CfgKey::at(key.index() as int) == key,
{
}

/// The parameters, each key with its value, and whether anything was set
/// since the mark was last cleared.
#[derive(Debug)]
pub struct Config {
    map: FxHashMap<usize, ValType>,
    pub is_dirty: bool,
}

impl View for Config {
    type V = Map<CfgKey, ValType>;

    /// The value of each key that has one.
    closed spec fn view(&self) -> Map<CfgKey, ValType> {
        Map::new(|k: CfgKey| self.map@.contains_key(k.index()), |k: CfgKey| self.map@[k.index()])
    }
}

/// Every key has a value of the kind of its default, inside its bounds.
pub open spec fn complete(m: Map<CfgKey, ValType>) -> bool {
    forall|k: CfgKey|
        #![trigger m[k]]
        #![trigger m.dom().contains(k)]
        m.dom().contains(k) && m[k].same_kind(k.default_spec()) && m[k].in_bounds()
}

/// Every key that has a value has one of the kind of its default, inside its
/// bounds.
pub open spec fn well_typed(m: Map<usize, ValType>) -> bool {
    forall|k: CfgKey| #[trigger]
        m.contains_key(k.index()) ==> m[k.index()].same_kind(k.default_spec()) && m[k.index(
        )].in_bounds()
}

impl Config {
    /// Whether anything was set since the mark was last cleared.
    pub closed spec fn dirty(&self) -> bool {
        self.is_dirty
    }

    /// The invariant of a configuration: every key has a value of the kind
    /// of its default, inside its bounds.
    pub open spec fn wf(&self) -> bool {
        complete(self@)
    }

    /// The configuration that holds the values of `map` and, for every key
    /// that `map` leaves out, the default.
    pub(crate) fn new(map: FxHashMap<usize, ValType>) -> (cfg: Self)
        requires
            well_typed(map@),
        ensures
            cfg.wf(),
            !cfg.dirty(),
            forall|k: CfgKey|
                #![trigger cfg@[k]]
                cfg@[k] == if map@.contains_key(k.index()) {
                    map@[k.index()]
                } else {
                    k.default_spec()
                },
    {
        let mut map = map;
        let ghost given = map@;
        let mut i: usize = 0;
        while i < N_CFG_KEYS
            invariant
                i <= N_CFG_KEYS,
                well_typed(map@),
                forall|k: CfgKey|
                    #![trigger map@.contains_key(k.index())]
                    map@.contains_key(k.index()) <==> given.contains_key(k.index()) || k.index() < i,
                forall|k: CfgKey|
                    #![trigger map@[k.index()]]
                    map@.contains_key(k.index()) ==> map@[k.index()] == if given.contains_key(
                        k.index(),
                    ) {
                        given[k.index()]
                    } else {
                        k.default_spec()
                    },
            decreases N_CFG_KEYS - i,
        {
            match CfgKey::from_index(i) {
                Some(key) => {
                    if !map_contains(&map, i) {
                        map_insert(&mut map, i, key.default_val());
                    }
                },
                None => {},
            }
            i += 1;
        }
        let cfg = Self { map, is_dirty: false };
        proof {
            assert forall|k: CfgKey|
                #![trigger cfg@[k]]
                #![trigger cfg@.dom().contains(k)]
                cfg@.dom().contains(k) && cfg@[k].same_kind(k.default_spec())
                    && cfg@[k].in_bounds() by {
                lemma_key_index(k);
                assert(map@.contains_key(k.index()));
            }
        }
        cfg
    }

    /// The configuration of the defaults.
    pub fn default() -> (cfg: Self)
        ensures
            cfg.wf(),
            !cfg.dirty(),
            forall|k: CfgKey| #![trigger cfg@[k]] cfg@[k] == k.default_spec(),
    {
        let map: FxHashMap<usize, ValType> = FxHashMap::default();
        Self::new(map)
    }

    /// The value of `key`.
    pub fn get(&self, key: CfgKey) -> (v: ValType)
        requires
            self.wf(),
        ensures
            v == self@[key],
            v.same_kind(key.default_spec()),
            v.in_bounds(),
    {
        assert(self@.dom().contains(key));
        match map_get(&self.map, key.to_index()) {
            Some(v) => v,
            None => key.default_val(),
        }
    }

    /// Whether anything was set since the mark was last cleared.
    pub fn is_dirty(&self) -> (b: bool)
        ensures
            b == self.dirty(),
    {
        self.is_dirty
    }

    /// Clears the mark that something was set.
    pub fn mark_clean(&mut self)
        ensures
            final(self)@ == old(self)@,
            !final(self).dirty(),
    {
        self.is_dirty = false;
    }

    /// What `set_val` leaves under `key` for `new_val`, if it takes it: a
    /// bounded value keeps its bounds and takes the number where the bounds
    /// admit it; a key code or a colour is replaced.
    pub open spec fn updated(current: ValType, new_val: ValType) -> Option<ValType> {
        match current {
            ValType::Unsigned(bv) => if bv.admits(new_val.number()) {
                Some(ValType::Unsigned(Bounded { val: new_val.number(), min: bv.min, max: bv.max }))
            } else {
                None
            },
            ValType::Decimal(bv) => if bv.admits(new_val.number()) {
                Some(ValType::Decimal(Bounded { val: new_val.number(), min: bv.min, max: bv.max }))
            } else {
                None
            },
            ValType::Keycode(_) => Some(new_val),
            ValType::ColorRgb8(_) => Some(new_val),
        }
    }

    /// Sets the value of `key` to that of `new_val`, whose own bounds play no
    /// part. A number outside the bounds of `key` is refused and nothing
    /// changes; else the configuration is marked as changed.
    pub fn set_val(&mut self, key: CfgKey, new_val: ValType) -> (res: Result<(), &'static str>)
        requires
            old(self).wf(),
            new_val.same_kind(key.default_spec()),
        ensures
            final(self).wf(),
            match Self::updated(old(self)@[key], new_val) {
                Some(v) => res is Ok && final(self)@ == old(self)@.insert(key, v) && final(self).dirty(),
                None => res == Err::<(), &'static str>(ERR_NOT_IN_BOUNDS) && final(self)@ == old(self)@ && final(self).dirty() == old(self).dirty(),
            },
    {
        let current = self.get(key);
        let next = match current {
            ValType::Unsigned(bv) => {
                let new_val = new_val.into_bounded();
                if bv.contains(new_val.val) {
                    ValType::Unsigned(Bounded::new(new_val.val, bv.min, bv.max))
                } else {
                    return Err(ERR_NOT_IN_BOUNDS);
                }
            },
            ValType::Decimal(bv) => {
                let new_val = new_val.into_bounded();
                if bv.contains(new_val.val) {
                    ValType::Decimal(Bounded::new(new_val.val, bv.min, bv.max))
                } else {
                    return Err(ERR_NOT_IN_BOUNDS);
                }
            },
            ValType::Keycode(_) => new_val,
            ValType::ColorRgb8(_) => new_val,
        };
        self.store(key, next);
        self.is_dirty = true;
        Ok(())
    }

    /// What `set_bounds` leaves under `key` for the bounds of `new_val`, if it
    /// takes them: the value that was there, inside the new bounds.
    pub open spec fn rebounded(current: ValType, new_val: ValType) -> Option<ValType> {
        match (current, new_val) {
            (ValType::Unsigned(bv), ValType::Unsigned(nb)) => if nb.admits(bv.val) {
                Some(ValType::Unsigned(Bounded { val: bv.val, min: nb.min, max: nb.max }))
            } else {
                None
            },
            (ValType::Decimal(bv), ValType::Decimal(nb)) => if nb.admits(bv.val) {
                Some(ValType::Decimal(Bounded { val: bv.val, min: nb.min, max: nb.max }))
            } else {
                None
            },
            _ => None,
        }
    }

    /// Gives `key` the bounds of `new_val`, whose own value plays no part. A
    /// key code and a colour have no bounds to set; bounds that would leave
    /// the value of `key` outside are refused. Where nothing is set, nothing
    /// changes; else the configuration is marked as changed.
    pub fn set_bounds(&mut self, key: CfgKey, new_val: ValType) -> (res: Result<(), &'static str>)
        requires
            old(self).wf(),
            new_val.same_kind(key.default_spec()),
        ensures
            final(self).wf(),
            match Self::rebounded(old(self)@[key], new_val) {
                Some(v) => res is Ok && final(self)@ == old(self)@.insert(key, v) && final(self).dirty(),
                None => final(self)@ == old(self)@ && final(self).dirty() == old(self).dirty()
                    && res == Err::<(), &'static str>(
                    if key.default_spec() is Unsigned || key.default_spec() is Decimal {
                        ERR_NOT_IN_BOUNDS
                    } else {
                        ERR_NO_BOUNDS
                    },
                ),
            },
    {
        let current = self.get(key);
        let next = match current {
            ValType::Unsigned(bv) => {
                let new_val_cast = new_val.into_bounded();
                if new_val_cast.contains(bv.val) {
                    ValType::Unsigned(Bounded::new(bv.val, new_val_cast.min, new_val_cast.max))
                } else {
                    return Err(ERR_NOT_IN_BOUNDS);
                }
            },
            ValType::Decimal(bv) => {
                let new_val_cast = new_val.into_bounded();
                if new_val_cast.contains(bv.val) {
                    ValType::Decimal(Bounded::new(bv.val, new_val_cast.min, new_val_cast.max))
                } else {
                    return Err(ERR_NOT_IN_BOUNDS);
                }
            },
            _ => {
                return Err(ERR_NO_BOUNDS);
            },
        };
        self.store(key, next);
        self.is_dirty = true;
        Ok(())
    }

    /// Puts `value` under `key`.
    fn store(&mut self, key: CfgKey, value: ValType)
        requires
            old(self).wf(),
            value.same_kind(key.default_spec()),
            value.in_bounds(),
        ensures
            final(self).wf(),
            final(self)@ == old(self)@.insert(key, value),
            final(self).dirty() == old(self).dirty(),
    {
        let ghost before = self@;
        map_insert(&mut self.map, key.to_index(), value);
        proof {
            assert forall|k: CfgKey| #[trigger] self@.dom().contains(k) <==> before.insert(
                key,
                value,
            ).dom().contains(k) by {
                assert(before.dom().contains(k));
            }
            assert forall|k: CfgKey| self@.dom().contains(k) implies #[trigger] self@[k]
                == before.insert(key, value)[k] by {
                if k.index() == key.index() {
                    lemma_key_index(k);
                    lemma_key_index(key);
                }
            }
            assert(self@ =~= before.insert(key, value));
            assert forall|k: CfgKey|
                #![trigger self@[k]]
                #![trigger self@.dom().contains(k)]
                self@.dom().contains(k) && self@[k].same_kind(k.default_spec())
                    && self@[k].in_bounds() by {
                assert(before.dom().contains(k));
                assert(before[k].in_bounds());
            }
        }
    }
}

} // verus!
