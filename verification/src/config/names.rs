//! The names of the keys, as they stand in a configuration file.

use crate::config::CfgKey;
use crate::config::N_CFG_KEYS;
use vstd::prelude::*;
use vstd::string::StrSliceExecFns;

verus! {

impl CfgKey {
    /// The name of the key: that of its variant in lower case, its words
    /// joined by underscores.
    pub open spec fn name(self) -> Seq<char> {
        match self {
            CfgKey::CropW => "crop_w"@,
            CfgKey::CropH => "crop_h"@,
            CfgKey::ColorThresh => "color_thresh"@,
            CfgKey::AimDivisor => "aim_divisor"@,
            CfgKey::YMultiplier => "y_multiplier"@,
            CfgKey::Fps => "fps"@,
            CfgKey::MaxAutoclickSleepMs => "max_autoclick_sleep_ms"@,
            CfgKey::MinAutoclickSleepMs => "min_autoclick_sleep_ms"@,
            CfgKey::AimDurationMicros => "aim_duration_micros"@,
            CfgKey::AimSteps => "aim_steps"@,
            CfgKey::AimKeycode => "aim_keycode"@,
            CfgKey::AutoclickKeycode => "autoclick_keycode"@,
            CfgKey::ToggleAimKeycode => "toggle_aim_keycode"@,
            CfgKey::ToggleAutoclickKeycode => "toggle_autoclick_keycode"@,
            CfgKey::FakeLmbKeycode => "fake_lmb_keycode"@,
            CfgKey::TargetColor => "target_color"@,
        }
    }

    /// The name of the key in bytes.
    pub open spec fn name_bytes(self) -> Seq<u8> {
        Seq::new(self.name().len(), |i: int| self.name()[i] as u8)
    }

    /// The name of the key.
    pub fn name_str(&self) -> (s: &'static str)
        ensures
            s@ == self.name(),
    {
        match *self {
            CfgKey::CropW => "crop_w",
            CfgKey::CropH => "crop_h",
            CfgKey::ColorThresh => "color_thresh",
            CfgKey::AimDivisor => "aim_divisor",
            CfgKey::YMultiplier => "y_multiplier",
            CfgKey::Fps => "fps",
            CfgKey::MaxAutoclickSleepMs => "max_autoclick_sleep_ms",
            CfgKey::MinAutoclickSleepMs => "min_autoclick_sleep_ms",
            CfgKey::AimDurationMicros => "aim_duration_micros",
            CfgKey::AimSteps => "aim_steps",
            CfgKey::AimKeycode => "aim_keycode",
            CfgKey::AutoclickKeycode => "autoclick_keycode",
            CfgKey::ToggleAimKeycode => "toggle_aim_keycode",
            CfgKey::ToggleAutoclickKeycode => "toggle_autoclick_keycode",
            CfgKey::FakeLmbKeycode => "fake_lmb_keycode",
            CfgKey::TargetColor => "target_color",
        }
    }

    /// The name of the key.
    pub fn as_string(&self) -> (s: String)
        ensures
            s@ == self.name(),
    {
        self.name_str().to_string()
    }
}

/// Whether `b` is a small letter or an underscore.
pub open spec fn is_name_byte(b: u8) -> bool {
    (97 <= b <= 122) || b == 95
}

/// The names are made of small letters and underscores only.
pub proof fn lemma_name_bytes(key: CfgKey)
    ensures
        vstd::utf8::is_ascii_chars(key.name()),
        key.name_bytes().len() == key.name().len(),
        1 <= key.name_bytes().len() <= 24,
        forall|i: int| 0 <= i < key.name_bytes().len() ==> is_name_byte(#[trigger] key.name_bytes()[i]),
{
    reveal_strlit("crop_w");
    reveal_strlit("crop_h");
    reveal_strlit("color_thresh");
    reveal_strlit("aim_divisor");
    reveal_strlit("y_multiplier");
    reveal_strlit("fps");
    reveal_strlit("max_autoclick_sleep_ms");
    reveal_strlit("min_autoclick_sleep_ms");
    reveal_strlit("aim_duration_micros");
    reveal_strlit("aim_steps");
    reveal_strlit("aim_keycode");
    reveal_strlit("autoclick_keycode");
    reveal_strlit("toggle_aim_keycode");
    reveal_strlit("toggle_autoclick_keycode");
    reveal_strlit("fake_lmb_keycode");
    reveal_strlit("target_color");
}

/// No two keys have one name.
pub proof fn lemma_names_differ(a: CfgKey, b: CfgKey)
    requires
        a != b,
    ensures
        a.name_bytes() != b.name_bytes(),
{
    reveal_strlit("crop_w");
    reveal_strlit("crop_h");
    reveal_strlit("color_thresh");
    reveal_strlit("aim_divisor");
    reveal_strlit("y_multiplier");
    reveal_strlit("fps");
    reveal_strlit("max_autoclick_sleep_ms");
    reveal_strlit("min_autoclick_sleep_ms");
    reveal_strlit("aim_duration_micros");
    reveal_strlit("aim_steps");
    reveal_strlit("aim_keycode");
    reveal_strlit("autoclick_keycode");
    reveal_strlit("toggle_aim_keycode");
    reveal_strlit("toggle_autoclick_keycode");
    reveal_strlit("fake_lmb_keycode");
    reveal_strlit("target_color");
    let (x, y) = (a.name_bytes(), b.name_bytes());
    if x.len() == y.len() {
        assert(x[0] != y[0] || x[1] != y[1] || x[5] != y[5]);
    }
}

/// The key whose name is `name`, if there is one.
pub open spec fn key_named(name: Seq<u8>) -> Option<CfgKey> {
    if exists|k: CfgKey| #[trigger] k.name_bytes() == name {
        Some(choose|k: CfgKey| #[trigger] k.name_bytes() == name)
    } else {
        None
    }
}

/// A name leads back to its key.
pub proof fn lemma_key_named(key: CfgKey)
    ensures
        key_named(key.name_bytes()) == Some(key),
{
    let found = choose|k: CfgKey| #[trigger] k.name_bytes() == key.name_bytes();
    if found != key {
        lemma_names_differ(found, key);
    }
}

impl CfgKey {
    /// The name of the key in bytes.
    pub fn name_vec(&self) -> (v: Vec<u8>)
        ensures
            v@ == self.name_bytes(),
    {
        let s = self.name_str();
        proof {
            lemma_name_bytes(*self);
            vstd::utf8::is_ascii_chars_encode_utf8(s@);
        }
        let v = s.as_bytes_vec();
        assert(v@ =~= self.name_bytes());
        v
    }

    /// The key whose name is `name`, if there is one.
    pub fn from_name(name: &[u8]) -> (key: Option<CfgKey>)
        ensures
            key == key_named(name@),
    {
        let mut i: usize = 0;
        while i < N_CFG_KEYS
            invariant
                i <= N_CFG_KEYS,
                forall|k: CfgKey| k.index() < i ==> #[trigger] k.name_bytes() != name@,
            decreases N_CFG_KEYS - i,
        {
            match CfgKey::from_index(i) {
                Some(k) => {
                    let candidate = k.name_vec();
                    if bytes_eq(candidate.as_slice(), name) {
                        proof {
                            lemma_key_named(k);
                        }
                        return Some(k);
                    }
                    proof {
                        assert forall|k2: CfgKey| k2.index() < i + 1 implies #[trigger] k2.name_bytes()
                            != name@ by {
                            if k2.index() == i {
                                crate::config::lemma_key_index(k2);
                            }
                        }
                    }
                },
                None => {},
            }
            i += 1;
        }
        proof {
            assert forall|k: CfgKey| #[trigger] k.name_bytes() != name@ by {
                crate::config::lemma_key_index(k);
            }
        }
        None
    }
}

/// Whether two runs of bytes are the same.
pub fn bytes_eq(a: &[u8], b: &[u8]) -> (same: bool)
    ensures
        same == (a@ == b@),
{
    if a.len() != b.len() {
        return false;
    }
    let mut i: usize = 0;
    while i < a.len()
        invariant
            a@.len() == b@.len(),
            i <= a@.len(),
            forall|k: int| 0 <= k < i ==> a@[k] == b@[k],
        decreases a@.len() - i,
    {
        if a[i] != b[i] {
            return false;
        }
        i += 1;
    }
    assert(a@ =~= b@);
    true
}

/// Whether `b` is a capital letter.
pub open spec fn is_upper(b: u8) -> bool {
    65 <= b <= 90
}

/// The small letter for a capital one; any other byte as it is.
pub open spec fn lower(b: u8) -> u8 {
    if is_upper(b) {
        (b + 32) as u8
    } else {
        b
    }
}

/// A name in words that start with capitals, as a name in small letters
/// with an underscore between the words: every capital letter but one at the
/// very start opens a word.
pub open spec fn snake_case(camel: Seq<u8>) -> Seq<u8>
    decreases camel.len(),
{
    if camel.len() == 0 {
        camel
    } else if camel.len() > 1 && is_upper(camel.last()) {
        snake_case(camel.drop_last()).push(95).push(lower(camel.last()))
    } else {
        snake_case(camel.drop_last()).push(lower(camel.last()))
    }
}

/// A name in words that start with capitals, as a name in small letters
/// with an underscore between the words.
pub fn camel_to_snake(camel_str: &[u8]) -> (snake_str: Vec<u8>)
    ensures
        snake_str@ == snake_case(camel_str@),
{
    let mut snake_str: Vec<u8> = Vec::new();
    let mut idx: usize = 0;
    while idx < camel_str.len()
        invariant
            idx <= camel_str@.len(),
            snake_str@ == snake_case(camel_str@.take(idx as int)),
        decreases camel_str@.len() - idx,
    {
        let c = camel_str[idx];
        proof {
            assert(camel_str@.take(idx + 1).drop_last() =~= camel_str@.take(idx as int));
        }
        let upper = 65 <= c && c <= 90;
        if upper && idx > 0 {
            snake_str.push(95);
        }
        if upper {
            snake_str.push(c + 32);
        } else {
            snake_str.push(c);
        }
        idx += 1;
    }
    proof {
        assert(camel_str@.take(camel_str@.len() as int) =~= camel_str@);
    }
    snake_str
}

impl CfgKey {
    /// The name of the variant, as it is written in the program.
    pub fn variant_name(&self) -> (s: &'static str)
        ensures
            s@ == self.variant(),
    {
        match *self {
            CfgKey::CropW => "CropW",
            CfgKey::CropH => "CropH",
            CfgKey::ColorThresh => "ColorThresh",
            CfgKey::AimDivisor => "AimDivisor",
            CfgKey::YMultiplier => "YMultiplier",
            CfgKey::Fps => "Fps",
            CfgKey::MaxAutoclickSleepMs => "MaxAutoclickSleepMs",
            CfgKey::MinAutoclickSleepMs => "MinAutoclickSleepMs",
            CfgKey::AimDurationMicros => "AimDurationMicros",
            CfgKey::AimSteps => "AimSteps",
            CfgKey::AimKeycode => "AimKeycode",
            CfgKey::AutoclickKeycode => "AutoclickKeycode",
            CfgKey::ToggleAimKeycode => "ToggleAimKeycode",
            CfgKey::ToggleAutoclickKeycode => "ToggleAutoclickKeycode",
            CfgKey::FakeLmbKeycode => "FakeLmbKeycode",
            CfgKey::TargetColor => "TargetColor",
        }
    }

    /// The name of the variant, as it is written in the program.
    pub open spec fn variant(self) -> Seq<char> {
        match self {
            CfgKey::CropW => "CropW"@,
            CfgKey::CropH => "CropH"@,
            CfgKey::ColorThresh => "ColorThresh"@,
            CfgKey::AimDivisor => "AimDivisor"@,
            CfgKey::YMultiplier => "YMultiplier"@,
            CfgKey::Fps => "Fps"@,
            CfgKey::MaxAutoclickSleepMs => "MaxAutoclickSleepMs"@,
            CfgKey::MinAutoclickSleepMs => "MinAutoclickSleepMs"@,
            CfgKey::AimDurationMicros => "AimDurationMicros"@,
            CfgKey::AimSteps => "AimSteps"@,
            CfgKey::AimKeycode => "AimKeycode"@,
            CfgKey::AutoclickKeycode => "AutoclickKeycode"@,
            CfgKey::ToggleAimKeycode => "ToggleAimKeycode"@,
            CfgKey::ToggleAutoclickKeycode => "ToggleAutoclickKeycode"@,
            CfgKey::FakeLmbKeycode => "FakeLmbKeycode"@,
            CfgKey::TargetColor => "TargetColor"@,
        }
    }
}

} // verus!
