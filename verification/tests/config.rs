use pixel_bot::config::names::bytes_eq;
use pixel_bot::config::number::find_byte;
use pixel_bot::config::number::push_decimal;
use pixel_bot::config::number::push_thousandths;
use pixel_bot::config::number::read_thousandths;
use pixel_bot::config::number::read_unsigned;
use pixel_bot::config::number::NumError;
use pixel_bot::config::render::push_entry;
use pixel_bot::config::render::push_value;
use pixel_bot::config::text::next_line;
use pixel_bot::config::text::parse_line;
use pixel_bot::config::text::read_bounded;
use pixel_bot::config::text::read_color;
use pixel_bot::config::text::read_numbers_in;
use pixel_bot::config::text::read_value;
use pixel_bot::config::text::strip_spaces;
use pixel_bot::config::text::ParseError;
use pixel_bot::config::text::ParseFault;
use pixel_bot::config::Bounded;
use pixel_bot::config::CfgKey;
use pixel_bot::config::Config;
use pixel_bot::config::ValType;
use pixel_bot::config::ERR_NOT_IN_BOUNDS;
use pixel_bot::config::ERR_NO_BOUNDS;
use pixel_bot::config::N_CFG_KEYS;
use pixel_bot::image::Color;

const DEFAULT_TEXT: &str = "crop_w = 1152, 0, 2559\n\
crop_h = 592, 0, 1439\n\
color_thresh = 0.83, 0.001, 0.999\n\
aim_divisor = 3, 1, 10\n\
y_multiplier = 0.9, 0, 1\n\
fps = 144, 1, 240\n\
max_autoclick_sleep_ms = 90, 0, 100\n\
min_autoclick_sleep_ms = 50, 0, 100\n\
aim_duration_micros = 50, 0, 2000\n\
aim_steps = 2, 1, 10\n\
aim_keycode = 1\n\
autoclick_keycode = 1\n\
toggle_aim_keycode = 190\n\
toggle_autoclick_keycode = 188\n\
fake_lmb_keycode = 4\n\
target_color = 196, 58, 172, 255\n";

const VALUES_ONLY_TEXT: &str = "crop_w = 1152\n\
crop_h = 592\n\
color_thresh = 0.83\n\
aim_divisor = 3\n\
y_multiplier = 0.9\n\
fps = 144\n\
max_autoclick_sleep_ms = 90\n\
min_autoclick_sleep_ms = 50\n\
aim_duration_micros = 50\n\
aim_steps = 2\n\
aim_keycode = 1\n\
autoclick_keycode = 1\n\
toggle_aim_keycode = 190\n\
toggle_autoclick_keycode = 188\n\
fake_lmb_keycode = 4\n\
target_color = 196, 58, 172\n";

fn unsigned(val: u32) -> ValType {
    ValType::Unsigned(Bounded::new(val, 0, 0))
}

fn decimal(val: u32) -> ValType {
    ValType::Decimal(Bounded::new(val, 0, 0))
}

fn values(cfg: &Config) -> Vec<ValType> {
    CfgKey::iter().into_iter().map(|k| cfg.get(k)).collect()
}

fn text_of(v: ValType) -> String {
    let mut out = Vec::new();
    push_value(&mut out, v);
    String::from_utf8(out).unwrap()
}

#[test]
fn keys_are_sixteen_in_order() {
    let keys = CfgKey::iter();
    assert_eq!(keys.len(), 16);
    assert_eq!(N_CFG_KEYS, 16);
    assert_eq!(keys[0], CfgKey::CropW);
    assert_eq!(keys[15], CfgKey::TargetColor);
    for (i, k) in keys.iter().enumerate() {
        assert_eq!(k.to_index(), i);
        assert_eq!(CfgKey::from_index(i), Some(*k));
    }
    assert_eq!(CfgKey::from_index(16), None);
    assert_eq!(CfgKey::from_index(usize::MAX), None);
}

#[test]
fn key_names_are_snake_case() {
    let names: Vec<String> = CfgKey::iter().into_iter().map(|k| k.as_string()).collect();
    assert_eq!(
        names,
        vec![
            "crop_w",
            "crop_h",
            "color_thresh",
            "aim_divisor",
            "y_multiplier",
            "fps",
            "max_autoclick_sleep_ms",
            "min_autoclick_sleep_ms",
            "aim_duration_micros",
            "aim_steps",
            "aim_keycode",
            "autoclick_keycode",
            "toggle_aim_keycode",
            "toggle_autoclick_keycode",
            "fake_lmb_keycode",
            "target_color",
        ]
    );
    for k in CfgKey::iter() {
        assert_eq!(k.name_str(), k.as_string());
        assert_eq!(k.name_vec(), k.as_string().into_bytes());
        assert_eq!(CfgKey::from_name(k.as_string().as_bytes()), Some(k));
    }
    assert_eq!(CfgKey::from_name(b"crop"), None);
    assert_eq!(CfgKey::from_name(b"crop_w "), None);
    assert_eq!(CfgKey::from_name(b"CROP_W"), None);
    assert_eq!(CfgKey::from_name(b""), None);
}

#[test]
fn defaults_are_as_documented() {
    assert_eq!(CfgKey::CropW.default_val(), ValType::Unsigned(Bounded::new(1152, 0, 2559)));
    assert_eq!(CfgKey::CropH.default_val(), ValType::Unsigned(Bounded::new(592, 0, 1439)));
    assert_eq!(CfgKey::ColorThresh.default_val(), ValType::Decimal(Bounded::new(830, 1, 999)));
    assert_eq!(CfgKey::AimDivisor.default_val(), ValType::Decimal(Bounded::new(3000, 1000, 10000)));
    assert_eq!(CfgKey::YMultiplier.default_val(), ValType::Decimal(Bounded::new(900, 0, 1000)));
    assert_eq!(CfgKey::Fps.default_val(), ValType::Unsigned(Bounded::new(144, 1, 240)));
    assert_eq!(CfgKey::MaxAutoclickSleepMs.default_val(), ValType::Unsigned(Bounded::new(90, 0, 100)));
    assert_eq!(CfgKey::MinAutoclickSleepMs.default_val(), ValType::Unsigned(Bounded::new(50, 0, 100)));
    assert_eq!(CfgKey::AimDurationMicros.default_val(), ValType::Unsigned(Bounded::new(50, 0, 2000)));
    assert_eq!(CfgKey::AimSteps.default_val(), ValType::Unsigned(Bounded::new(2, 1, 10)));
    assert_eq!(CfgKey::AimKeycode.default_val(), ValType::Keycode(1));
    assert_eq!(CfgKey::AutoclickKeycode.default_val(), ValType::Keycode(1));
    assert_eq!(CfgKey::ToggleAimKeycode.default_val(), ValType::Keycode(190));
    assert_eq!(CfgKey::ToggleAutoclickKeycode.default_val(), ValType::Keycode(188));
    assert_eq!(CfgKey::FakeLmbKeycode.default_val(), ValType::Keycode(4));
    assert_eq!(
        CfgKey::TargetColor.default_val(),
        ValType::ColorRgb8(Color::new(196, 58, 172, 255))
    );
}

#[test]
fn five_keys_are_keycodes() {
    let keycodes: Vec<CfgKey> = CfgKey::iter().into_iter().filter(|k| k.is_keycode()).collect();
    assert_eq!(
        keycodes,
        vec![
            CfgKey::AimKeycode,
            CfgKey::AutoclickKeycode,
            CfgKey::ToggleAimKeycode,
            CfgKey::ToggleAutoclickKeycode,
            CfgKey::FakeLmbKeycode,
        ]
    );
}

#[test]
fn default_config_holds_every_default_and_is_clean() {
    let cfg = Config::default();
    for k in CfgKey::iter() {
        assert_eq!(cfg.get(k), k.default_val());
    }
    assert!(!cfg.is_dirty);
    assert!(!cfg.is_dirty());
}

#[test]
fn values_unwrap_to_what_they_hold() {
    assert_eq!(ValType::Keycode(190).into_keycode(), 190);
    assert_eq!(unsigned(7).into_bounded(), Bounded::new(7, 0, 0));
    assert_eq!(ValType::Decimal(Bounded::new(830, 1, 999)).into_bounded().val, 830);
    assert_eq!(ValType::ColorRgb8(Color::new(1, 2, 3, 4)).into_color(), Color::new(1, 2, 3, 4));
    assert!(Bounded::new(5u32, 1, 9).contains(1));
    assert!(Bounded::new(5u32, 1, 9).contains(9));
    assert!(!Bounded::new(5u32, 1, 9).contains(0));
    assert!(!Bounded::new(5u32, 1, 9).contains(10));
}

#[test]
fn set_val_inside_bounds_keeps_the_bounds_and_marks_dirty() {
    let mut cfg = Config::default();
    assert_eq!(cfg.set_val(CfgKey::Fps, unsigned(60)), Ok(()));
    assert_eq!(cfg.get(CfgKey::Fps), ValType::Unsigned(Bounded::new(60, 1, 240)));
    assert!(cfg.is_dirty);
    cfg.mark_clean();
    assert!(!cfg.is_dirty());
    assert_eq!(cfg.set_val(CfgKey::ColorThresh, decimal(999)), Ok(()));
    assert_eq!(cfg.get(CfgKey::ColorThresh), ValType::Decimal(Bounded::new(999, 1, 999)));
    assert!(cfg.is_dirty());
    assert_eq!(cfg.set_val(CfgKey::Fps, unsigned(1)), Ok(()));
    assert_eq!(cfg.set_val(CfgKey::Fps, unsigned(240)), Ok(()));
    assert_eq!(cfg.get(CfgKey::Fps), ValType::Unsigned(Bounded::new(240, 1, 240)));
}

#[test]
fn set_val_outside_bounds_is_refused_and_changes_nothing() {
    let mut cfg = Config::default();
    let before = values(&cfg);
    assert_eq!(cfg.set_val(CfgKey::Fps, unsigned(0)), Err(ERR_NOT_IN_BOUNDS));
    assert_eq!(cfg.set_val(CfgKey::Fps, unsigned(241)), Err("Value not in bounds"));
    assert_eq!(cfg.set_val(CfgKey::ColorThresh, decimal(0)), Err(ERR_NOT_IN_BOUNDS));
    assert_eq!(cfg.set_val(CfgKey::ColorThresh, decimal(1000)), Err(ERR_NOT_IN_BOUNDS));
    assert_eq!(cfg.set_val(CfgKey::AimDivisor, decimal(999)), Err(ERR_NOT_IN_BOUNDS));
    assert_eq!(values(&cfg), before);
    assert!(!cfg.is_dirty);
}

#[test]
fn set_val_replaces_keycodes_and_colours() {
    let mut cfg = Config::default();
    assert_eq!(cfg.set_val(CfgKey::AimKeycode, ValType::Keycode(65)), Ok(()));
    assert_eq!(cfg.get(CfgKey::AimKeycode), ValType::Keycode(65));
    assert!(cfg.is_dirty);
    let c = ValType::ColorRgb8(Color::new(1, 2, 3, 255));
    assert_eq!(cfg.set_val(CfgKey::TargetColor, c), Ok(()));
    assert_eq!(cfg.get(CfgKey::TargetColor), c);
    assert_eq!(cfg.get(CfgKey::AutoclickKeycode), ValType::Keycode(1));
}

#[test]
fn set_bounds_replaces_the_bounds_and_keeps_the_value() {
    let mut cfg = Config::default();
    let new_bounds = ValType::Unsigned(Bounded::new(0, 0, 1279));
    assert_eq!(cfg.set_bounds(CfgKey::CropW, new_bounds), Ok(()));
    assert_eq!(cfg.get(CfgKey::CropW), ValType::Unsigned(Bounded::new(1152, 0, 1279)));
    assert!(cfg.is_dirty);
    assert_eq!(cfg.set_val(CfgKey::CropW, unsigned(1279)), Ok(()));
    assert_eq!(cfg.set_val(CfgKey::CropW, unsigned(1280)), Err(ERR_NOT_IN_BOUNDS));
    let wide = ValType::Decimal(Bounded::new(0, 0, 5000));
    assert_eq!(cfg.set_bounds(CfgKey::YMultiplier, wide), Ok(()));
    assert_eq!(cfg.get(CfgKey::YMultiplier), ValType::Decimal(Bounded::new(900, 0, 5000)));
}

#[test]
fn set_bounds_that_leave_the_value_outside_are_refused() {
    let mut cfg = Config::default();
    let before = values(&cfg);
    let narrow = ValType::Unsigned(Bounded::new(0, 0, 959));
    assert_eq!(cfg.set_bounds(CfgKey::CropW, narrow), Err(ERR_NOT_IN_BOUNDS));
    let empty = ValType::Unsigned(Bounded::new(0, 10, 5));
    assert_eq!(cfg.set_bounds(CfgKey::Fps, empty), Err(ERR_NOT_IN_BOUNDS));
    assert_eq!(values(&cfg), before);
    assert!(!cfg.is_dirty);
}

#[test]
fn set_bounds_on_a_keycode_or_colour_has_nothing_to_set() {
    let mut cfg = Config::default();
    assert_eq!(cfg.set_bounds(CfgKey::AimKeycode, ValType::Keycode(3)), Err(ERR_NO_BOUNDS));
    assert_eq!(
        cfg.set_bounds(CfgKey::TargetColor, ValType::ColorRgb8(Color::new(0, 0, 0, 0))),
        Err("No bounds to set")
    );
    assert_eq!(cfg.get(CfgKey::AimKeycode), ValType::Keycode(1));
    assert!(!cfg.is_dirty);
}

#[test]
fn decimal_digits_are_written_without_leading_zeros() {
    for (v, want) in [(0u32, "0"), (7, "7"), (10, "10"), (1152, "1152"), (u32::MAX, "4294967295")] {
        let mut out = b"x".to_vec();
        push_decimal(&mut out, v);
        assert_eq!(String::from_utf8(out).unwrap(), format!("x{}", want));
    }
}

#[test]
fn thousandths_are_written_with_no_more_digits_than_needed() {
    let table = [
        (0u32, "0"),
        (1, "0.001"),
        (10, "0.01"),
        (100, "0.1"),
        (830, "0.83"),
        (900, "0.9"),
        (999, "0.999"),
        (1000, "1"),
        (3000, "3"),
        (10000, "10"),
        (1050, "1.05"),
        (12345, "12.345"),
        (u32::MAX, "4294967.295"),
    ];
    for (v, want) in table {
        let mut out = Vec::new();
        push_thousandths(&mut out, v);
        assert_eq!(String::from_utf8(out).unwrap(), want);
    }
}

#[test]
fn whole_numbers_are_read_from_digits() {
    assert_eq!(read_unsigned(b"0", 255), Ok(0));
    assert_eq!(read_unsigned(b"255", 255), Ok(255));
    assert_eq!(read_unsigned(b"+42", 255), Ok(42));
    assert_eq!(read_unsigned(b"007", 255), Ok(7));
    assert_eq!(read_unsigned(b"4294967295", u32::MAX), Ok(u32::MAX));
    assert_eq!(read_unsigned(b"65535", 0xFFFF), Ok(65535));
}

#[test]
fn whole_numbers_fail_as_empty_invalid_or_too_large() {
    assert_eq!(read_unsigned(b"", 255), Err(NumError::Empty));
    assert_eq!(read_unsigned(b"+", 255), Err(NumError::InvalidDigit));
    assert_eq!(read_unsigned(b"-1", 255), Err(NumError::InvalidDigit));
    assert_eq!(read_unsigned(b"12a", 255), Err(NumError::InvalidDigit));
    assert_eq!(read_unsigned(b"1.5", 255), Err(NumError::InvalidDigit));
    assert_eq!(read_unsigned(b"++1", 255), Err(NumError::InvalidDigit));
    assert_eq!(read_unsigned(b"256", 255), Err(NumError::TooLarge));
    assert_eq!(read_unsigned(b"4294967296", u32::MAX), Err(NumError::TooLarge));
    assert_eq!(read_unsigned(b"65536", 0xFFFF), Err(NumError::TooLarge));
    // whichever comes first ends the reading
    assert_eq!(read_unsigned(b"999x", 255), Err(NumError::TooLarge));
    assert_eq!(read_unsigned(b"9x99", 255), Err(NumError::InvalidDigit));
}

#[test]
fn fractions_are_read_in_thousandths() {
    assert_eq!(read_thousandths(b"0.83", u32::MAX), Ok(830));
    assert_eq!(read_thousandths(b"3", u32::MAX), Ok(3000));
    assert_eq!(read_thousandths(b"3.", u32::MAX), Ok(3000));
    assert_eq!(read_thousandths(b".5", u32::MAX), Ok(500));
    assert_eq!(read_thousandths(b"+0.001", u32::MAX), Ok(1));
    assert_eq!(read_thousandths(b"10.0", u32::MAX), Ok(10000));
    assert_eq!(read_thousandths(b"0.999", u32::MAX), Ok(999));
    assert_eq!(read_thousandths(b"4294967.295", u32::MAX), Ok(u32::MAX));
}

#[test]
fn fractions_fail_as_empty_invalid_or_too_large() {
    assert_eq!(read_thousandths(b"", u32::MAX), Err(NumError::Empty));
    assert_eq!(read_thousandths(b".", u32::MAX), Err(NumError::InvalidDigit));
    assert_eq!(read_thousandths(b"+", u32::MAX), Err(NumError::InvalidDigit));
    assert_eq!(read_thousandths(b"0.83x3", u32::MAX), Err(NumError::InvalidDigit));
    assert_eq!(read_thousandths(b"0.8333x", u32::MAX), Err(NumError::InvalidDigit));
    assert_eq!(read_thousandths(b"0.833+3", u32::MAX), Err(NumError::InvalidDigit));
    assert_eq!(read_thousandths(b"1.2.3", u32::MAX), Err(NumError::InvalidDigit));
    assert_eq!(read_thousandths(b"1e3", u32::MAX), Err(NumError::InvalidDigit));
    assert_eq!(read_thousandths(b"-0.5", u32::MAX), Err(NumError::InvalidDigit));
    assert_eq!(read_thousandths(b"0.5x", u32::MAX), Err(NumError::InvalidDigit));
    assert_eq!(read_thousandths(b"4294967.296", u32::MAX), Err(NumError::TooLarge));
    assert_eq!(read_thousandths(b"4294968", u32::MAX), Err(NumError::TooLarge));
    assert_eq!(read_thousandths(b"4294967.2955", u32::MAX), Err(NumError::TooLarge));
    assert_eq!(read_thousandths(b"0.9995", 999), Err(NumError::TooLarge));
}

#[test]
fn fractions_with_more_digits_are_rounded_to_thousandths() {
    assert_eq!(read_thousandths(b"0.8333", u32::MAX), Ok(833));
    assert_eq!(read_thousandths(b"0.8334999", u32::MAX), Ok(833));
    assert_eq!(read_thousandths(b"0.8335", u32::MAX), Ok(834));
    assert_eq!(read_thousandths(b"0.83350", u32::MAX), Ok(834));
    assert_eq!(read_thousandths(b"0.8339", u32::MAX), Ok(834));
    assert_eq!(read_thousandths(b"0.9995", u32::MAX), Ok(1000));
    assert_eq!(read_thousandths(b"1.9999", u32::MAX), Ok(2000));
    assert_eq!(read_thousandths(b"0.0004", u32::MAX), Ok(0));
    assert_eq!(read_thousandths(b"0.0005", u32::MAX), Ok(1));
    assert_eq!(read_thousandths(b".12345678901234567890", u32::MAX), Ok(123));
    assert_eq!(read_thousandths(b"3.0000", u32::MAX), Ok(3000));
    assert_eq!(read_thousandths(b"4294967.2949", u32::MAX), Ok(u32::MAX));
    assert_eq!(read_thousandths(b"0.9994", 999), Ok(999));
}

#[test]
fn values_are_written_as_text() {
    assert_eq!(text_of(ValType::Keycode(190)), "190");
    assert_eq!(text_of(ValType::Keycode(0)), "0");
    assert_eq!(text_of(ValType::Unsigned(Bounded::new(1152, 0, 2559))), "1152, 0, 2559");
    assert_eq!(text_of(ValType::Decimal(Bounded::new(830, 1, 999))), "0.83, 0.001, 0.999");
    assert_eq!(text_of(ValType::ColorRgb8(Color::new(196, 58, 172, 255))), "196, 58, 172, 255");
    assert_eq!(text_of(ValType::ColorRgb8(Color::new(0, 0, 0, 0))), "0, 0, 0, 0");
    let mut out = Vec::new();
    push_entry(&mut out, CfgKey::AimDivisor, ValType::Decimal(Bounded::new(3500, 1000, 10000)));
    assert_eq!(String::from_utf8(out).unwrap(), "aim_divisor = 3.5, 1, 10");
}

#[test]
fn colours_are_read_from_three_parts() {
    assert_eq!(read_color(b"196,58,172", 1).unwrap(), Color::new(196, 58, 172, 255));
    assert_eq!(read_color(b"0,0,0", 1).unwrap(), Color::new(0, 0, 0, 255));
    assert_eq!(read_color(b"255,+255,007", 1).unwrap(), Color::new(255, 255, 7, 255));
}

#[test]
fn colours_are_read_from_four_parts_with_their_alpha() {
    assert_eq!(read_color(b"196,58,172,255", 1).unwrap(), Color::new(196, 58, 172, 255));
    assert_eq!(read_color(b"1,2,3,4", 1).unwrap(), Color::new(1, 2, 3, 4));
    assert_eq!(read_color(b"0,0,0,0", 1).unwrap(), Color::new(0, 0, 0, 0));
    assert_eq!(read_color(b"9,8,7,+128", 1).unwrap(), Color::new(9, 8, 7, 128));
}

#[test]
fn colours_with_other_than_three_parts_are_invalid() {
    for text in [&b"1"[..], b"1,2", b"1,2,3,4,5", b"1,2,3,4,5,6"] {
        match read_color(text, 9) {
            Err(ParseError::Parse(9, ParseFault::InvalidColor)) => {}
            other => panic!("{:?}", other),
        }
    }
}

#[test]
fn colours_with_a_bad_part_fail_on_that_part() {
    let table = [
        (&b""[..], NumError::Empty),
        (b"1,,3", NumError::Empty),
        (b"1,2,", NumError::Empty),
        (b"1,2,3,", NumError::Empty),
        (b"256,1,1", NumError::TooLarge),
        (b"1,2,300", NumError::TooLarge),
        (b"1,2,3,256", NumError::TooLarge),
        (b"a,2,3", NumError::InvalidDigit),
        (b"1,b", NumError::InvalidDigit),
        (b"1,2,3.0", NumError::InvalidDigit),
        (b"1,2,3,x", NumError::InvalidDigit),
        // the first bad part decides
        (b"1,x,300", NumError::InvalidDigit),
        (b"300,x,", NumError::TooLarge),
    ];
    for (text, fault) in table {
        match read_color(text, 4) {
            Err(ParseError::Parse(4, ParseFault::Integer(e))) => assert_eq!(e, fault),
            other => panic!("{:?}", other),
        }
    }
}

#[test]
fn values_are_read_by_the_kind_of_their_key() {
    assert_eq!(read_value(CfgKey::AimKeycode, b"65", 1).unwrap(), ValType::Keycode(65));
    assert_eq!(
        read_value(CfgKey::Fps, b"60", 1).unwrap(),
        ValType::Unsigned(Bounded::new(60, 1, 240))
    );
    assert_eq!(
        read_value(CfgKey::ColorThresh, b"0.5", 1).unwrap(),
        ValType::Decimal(Bounded::new(500, 1, 999))
    );
    assert_eq!(
        read_value(CfgKey::TargetColor, b"1,2,3", 1).unwrap(),
        ValType::ColorRgb8(Color::new(1, 2, 3, 255))
    );
    assert_eq!(
        read_value(CfgKey::TargetColor, b"1,2,3,77", 1).unwrap(),
        ValType::ColorRgb8(Color::new(1, 2, 3, 77))
    );
    assert_eq!(
        read_value(CfgKey::ColorThresh, b"0.83349", 1).unwrap(),
        ValType::Decimal(Bounded::new(833, 1, 999))
    );
    assert!(matches!(read_value(CfgKey::Fps, b"241", 3), Err(ParseError::OutOfBounds(3))));
    assert!(matches!(read_value(CfgKey::Fps, b"0", 3), Err(ParseError::OutOfBounds(3))));
    assert!(matches!(read_value(CfgKey::ColorThresh, b"1", 3), Err(ParseError::OutOfBounds(3))));
    assert!(matches!(read_value(CfgKey::ColorThresh, b"0", 3), Err(ParseError::OutOfBounds(3))));
    assert!(matches!(
        read_value(CfgKey::AimKeycode, b"65536", 3),
        Err(ParseError::Parse(3, ParseFault::Integer(NumError::TooLarge)))
    ));
    assert!(matches!(
        read_value(CfgKey::Fps, b"", 3),
        Err(ParseError::Parse(3, ParseFault::Integer(NumError::Empty)))
    ));
    assert!(matches!(
        read_value(CfgKey::ColorThresh, b"abc", 3),
        Err(ParseError::Parse(3, ParseFault::Fraction(NumError::InvalidDigit)))
    ));
}

#[test]
fn spaces_are_stripped_and_bytes_found() {
    assert_eq!(strip_spaces(b" a b  c "), b"abc".to_vec());
    assert_eq!(strip_spaces(b"\ta\t"), b"\ta\t".to_vec());
    assert_eq!(strip_spaces(b""), Vec::<u8>::new());
    assert_eq!(find_byte(b"abc=def=g", b'='), 3);
    assert_eq!(find_byte(b"abc", b'='), 3);
    assert_eq!(find_byte(b"", b'='), 0);
    assert!(bytes_eq(b"abc", b"abc"));
    assert!(!bytes_eq(b"abc", b"abd"));
    assert!(!bytes_eq(b"abc", b"ab"));
    assert!(bytes_eq(b"", b""));
}

#[test]
fn lines_hold_a_pair_a_comment_both_or_neither() {
    let l = parse_line(b"fps = 60", 1).unwrap();
    assert_eq!(l.key_val_pair, Some((CfgKey::Fps, ValType::Unsigned(Bounded::new(60, 1, 240)))));
    assert_eq!(l.comment, None);
    let l = parse_line(b"  f p s=6 0   # sixty # frames", 1).unwrap();
    assert_eq!(l.key_val_pair, Some((CfgKey::Fps, ValType::Unsigned(Bounded::new(60, 1, 240)))));
    assert_eq!(l.comment, Some(b" sixty # frames".to_vec()));
    let l = parse_line(b"# only a comment", 1).unwrap();
    assert_eq!(l.key_val_pair, None);
    assert_eq!(l.comment, Some(b" only a comment".to_vec()));
    let l = parse_line(b"", 1).unwrap();
    assert_eq!((l.key_val_pair, l.comment), (None, None));
    let l = parse_line(b"     ", 1).unwrap();
    assert_eq!((l.key_val_pair, l.comment), (None, None));
    let l = parse_line(b"#", 1).unwrap();
    assert_eq!((l.key_val_pair, l.comment), (None, Some(Vec::new())));
    let l = parse_line(b"target_color = 1, 2, 3", 1).unwrap();
    assert_eq!(
        l.key_val_pair,
        Some((CfgKey::TargetColor, ValType::ColorRgb8(Color::new(1, 2, 3, 255))))
    );
}

#[test]
fn lines_fail_with_their_number() {
    assert!(matches!(
        parse_line(b"fps 60", 7),
        Err(ParseError::Parse(7, ParseFault::NoDelimiter))
    ));
    assert!(matches!(parse_line(b"\t", 7), Err(ParseError::Parse(7, ParseFault::NoDelimiter))));
    assert!(matches!(parse_line(b"speed = 60", 8), Err(ParseError::InvalidKey(8))));
    assert!(matches!(parse_line(b"= 60", 8), Err(ParseError::InvalidKey(8))));
    assert!(matches!(parse_line(b"Fps = 60", 8), Err(ParseError::InvalidKey(8))));
    assert!(matches!(parse_line(b"fps = 500", 9), Err(ParseError::OutOfBounds(9))));
    assert!(matches!(
        parse_line(b"fps = 6=0", 10),
        Err(ParseError::Parse(10, ParseFault::Integer(NumError::InvalidDigit)))
    ));
    assert!(matches!(
        parse_line(b"fps = ", 10),
        Err(ParseError::Parse(10, ParseFault::Integer(NumError::Empty)))
    ));
    assert!(matches!(
        parse_line(b"target_color = 1, 2", 11),
        Err(ParseError::Parse(11, ParseFault::InvalidColor))
    ));
    assert!(matches!(
        parse_line(b"aim_divisor = 2,5", 12),
        Err(ParseError::Parse(12, ParseFault::InvalidBounds))
    ));
    assert!(matches!(
        parse_line(b"aim_divisor = 2;5", 12),
        Err(ParseError::Parse(12, ParseFault::Fraction(NumError::InvalidDigit)))
    ));
}

#[test]
fn bounded_values_are_read_with_their_own_bounds() {
    assert_eq!(
        read_value(CfgKey::Fps, b"60,1,240", 1).unwrap(),
        ValType::Unsigned(Bounded::new(60, 1, 240))
    );
    // outside the bounds of the default, inside its own
    assert_eq!(
        read_value(CfgKey::Fps, b"500,100,1000", 1).unwrap(),
        ValType::Unsigned(Bounded::new(500, 100, 1000))
    );
    assert_eq!(
        read_value(CfgKey::Fps, b"7,7,7", 1).unwrap(),
        ValType::Unsigned(Bounded::new(7, 7, 7))
    );
    assert_eq!(
        read_value(CfgKey::Fps, b"4294967295,0,4294967295", 1).unwrap(),
        ValType::Unsigned(Bounded::new(u32::MAX, 0, u32::MAX))
    );
    assert_eq!(
        read_value(CfgKey::YMultiplier, b"2.5,0,5", 1).unwrap(),
        ValType::Decimal(Bounded::new(2500, 0, 5000))
    );
    assert_eq!(
        read_value(CfgKey::ColorThresh, b"0.5,0.25,.75", 1).unwrap(),
        ValType::Decimal(Bounded::new(500, 250, 750))
    );
    assert_eq!(
        read_bounded(Bounded::new(0, 1, 9), b"5", false, 1).unwrap(),
        Bounded::new(5, 1, 9)
    );
    assert_eq!(
        read_bounded(Bounded::new(0, 1, 9), b"50,40,60", false, 1).unwrap(),
        Bounded::new(50, 40, 60)
    );
    assert_eq!(
        read_bounded(Bounded::new(0, 1, 9), b"0.5,0,1", true, 1).unwrap(),
        Bounded::new(500, 0, 1000)
    );
}

#[test]
fn bounded_values_outside_their_own_bounds_are_refused() {
    for text in [&b"0,1,240"[..], b"241,1,240", b"5,6,4", b"5,6,9", b"5,1,4"] {
        assert!(
            matches!(read_value(CfgKey::Fps, text, 6), Err(ParseError::OutOfBounds(6))),
            "{:?}",
            text
        );
    }
    assert!(matches!(
        read_value(CfgKey::ColorThresh, b"1,0.001,0.999", 6),
        Err(ParseError::OutOfBounds(6))
    ));
    assert!(matches!(
        read_bounded(Bounded::new(0, 1, 9), b"10", false, 2),
        Err(ParseError::OutOfBounds(2))
    ));
}

#[test]
fn bounded_values_have_one_part_or_three() {
    for text in [&b"60,1"[..], b"60,1,240,5", b"1,2,3,4,5"] {
        assert!(
            matches!(
                read_value(CfgKey::Fps, text, 5),
                Err(ParseError::Parse(5, ParseFault::InvalidBounds))
            ),
            "{:?}",
            text
        );
    }
    assert!(matches!(
        read_value(CfgKey::AimDivisor, b"3,1", 5),
        Err(ParseError::Parse(5, ParseFault::InvalidBounds))
    ));
    // a part that is no number is found before the parts are counted
    assert!(matches!(
        read_value(CfgKey::Fps, b"60,", 5),
        Err(ParseError::Parse(5, ParseFault::Integer(NumError::Empty)))
    ));
    assert!(matches!(
        read_value(CfgKey::Fps, b"60,x,240,5", 5),
        Err(ParseError::Parse(5, ParseFault::Integer(NumError::InvalidDigit)))
    ));
    assert!(matches!(
        read_value(CfgKey::AimDivisor, b"3,1,1e1", 5),
        Err(ParseError::Parse(5, ParseFault::Fraction(NumError::InvalidDigit)))
    ));
    assert!(matches!(
        read_value(CfgKey::Fps, b"60,1,4294967296", 5),
        Err(ParseError::Parse(5, ParseFault::Integer(NumError::TooLarge)))
    ));
    // a key code has no bounds
    assert!(matches!(
        read_value(CfgKey::AimKeycode, b"65,0,100", 5),
        Err(ParseError::Parse(5, ParseFault::Integer(NumError::InvalidDigit)))
    ));
}

#[test]
fn numbers_between_commas_are_read_from_the_left() {
    assert_eq!(read_numbers_in(b"1,2,3", false, 255), Ok(vec![1, 2, 3]));
    assert_eq!(read_numbers_in(b"7", false, 255), Ok(vec![7]));
    assert_eq!(read_numbers_in(b"0.5,2,.25", true, u32::MAX), Ok(vec![500, 2000, 250]));
    assert_eq!(read_numbers_in(b"", false, 255), Err(NumError::Empty));
    assert_eq!(read_numbers_in(b",", false, 255), Err(NumError::Empty));
    assert_eq!(read_numbers_in(b"1,,x", false, 255), Err(NumError::Empty));
    assert_eq!(read_numbers_in(b"1,x,", false, 255), Err(NumError::InvalidDigit));
    assert_eq!(read_numbers_in(b"1,256,x", false, 255), Err(NumError::TooLarge));
}

#[test]
fn text_is_cut_into_lines_at_line_feeds() {
    let text = b"one\ntwo\r\n\nfour\r";
    let (l, n) = next_line(text, 0);
    assert_eq!((l, n), (&b"one"[..], 4));
    let (l, n) = next_line(text, 4);
    assert_eq!((l, n), (&b"two"[..], 9));
    let (l, n) = next_line(text, 9);
    assert_eq!((l, n), (&b""[..], 10));
    let (l, n) = next_line(text, 10);
    assert_eq!((l, n), (&b"four\r"[..], 15));
    let (l, n) = next_line(b"\r\n", 0);
    assert_eq!((l, n), (&b""[..], 2));
}

#[test]
fn default_config_is_written_as_one_line_a_key() {
    let cfg = Config::default();
    assert_eq!(String::from_utf8(cfg.to_text(None)).unwrap(), DEFAULT_TEXT);
    assert_eq!(String::from_utf8(cfg.to_text(Some(b""))).unwrap(), DEFAULT_TEXT);
}

#[test]
fn written_config_reads_back_the_same() {
    let mut cfg = Config::default();
    cfg.set_val(CfgKey::CropW, unsigned(0)).unwrap();
    cfg.set_val(CfgKey::CropH, unsigned(1439)).unwrap();
    cfg.set_val(CfgKey::ColorThresh, decimal(1)).unwrap();
    cfg.set_val(CfgKey::AimDivisor, decimal(10000)).unwrap();
    cfg.set_val(CfgKey::YMultiplier, decimal(555)).unwrap();
    cfg.set_val(CfgKey::AimKeycode, ValType::Keycode(u16::MAX)).unwrap();
    cfg.set_val(CfgKey::ToggleAimKeycode, ValType::Keycode(0)).unwrap();
    cfg.set_val(CfgKey::TargetColor, ValType::ColorRgb8(Color::new(0, 255, 9, 255))).unwrap();
    let text = cfg.to_text(None);
    let back = Config::from_text(&text).unwrap();
    assert_eq!(values(&back), values(&cfg));
    assert!(!back.is_dirty);
    assert_eq!(back.to_text(None), text);
}

#[test]
fn every_default_reads_back_from_its_own_text() {
    let back = Config::from_text(DEFAULT_TEXT.as_bytes()).unwrap();
    assert_eq!(values(&back), values(&Config::default()));
}

#[test]
fn text_without_bounds_or_alpha_reads_with_the_defaults_of_each() {
    let back = Config::from_text(VALUES_ONLY_TEXT.as_bytes()).unwrap();
    assert_eq!(values(&back), values(&Config::default()));
    let text = VALUES_ONLY_TEXT.replace("fps = 144", "fps = 30");
    let cfg = Config::from_text(text.as_bytes()).unwrap();
    assert_eq!(cfg.get(CfgKey::Fps), ValType::Unsigned(Bounded::new(30, 1, 240)));
    let text = VALUES_ONLY_TEXT.replace("fps = 144", "fps = 241");
    assert!(matches!(Config::from_text(text.as_bytes()), Err(ParseError::OutOfBounds(6))));
}

#[test]
fn bounds_that_were_set_are_written_and_read_back() {
    let mut cfg = Config::default();
    cfg.set_bounds(CfgKey::CropW, ValType::Unsigned(Bounded::new(0, 0, 1279))).unwrap();
    cfg.set_bounds(CfgKey::CropH, ValType::Unsigned(Bounded::new(0, 100, 5000))).unwrap();
    cfg.set_val(CfgKey::CropH, unsigned(4000)).unwrap();
    cfg.set_bounds(CfgKey::YMultiplier, ValType::Decimal(Bounded::new(0, 0, 5000))).unwrap();
    cfg.set_val(CfgKey::YMultiplier, decimal(2125)).unwrap();
    cfg.set_bounds(CfgKey::Fps, ValType::Unsigned(Bounded::new(0, 0, u32::MAX))).unwrap();
    cfg.set_val(CfgKey::Fps, unsigned(u32::MAX)).unwrap();
    let text = cfg.to_text(None);
    let shown = String::from_utf8(text.clone()).unwrap();
    assert!(shown.contains("crop_w = 1152, 0, 1279\n"));
    assert!(shown.contains("crop_h = 4000, 100, 5000\n"));
    assert!(shown.contains("y_multiplier = 2.125, 0, 5\n"));
    assert!(shown.contains("fps = 4294967295, 0, 4294967295\n"));
    let back = Config::from_text(&text).unwrap();
    assert_eq!(values(&back), values(&cfg));
    assert_eq!(back.get(CfgKey::CropH), ValType::Unsigned(Bounded::new(4000, 100, 5000)));
    assert_eq!(back.get(CfgKey::YMultiplier), ValType::Decimal(Bounded::new(2125, 0, 5000)));
    assert_eq!(back.to_text(None), text);
}

#[test]
fn a_colour_that_is_not_opaque_is_written_and_read_back() {
    let mut cfg = Config::default();
    cfg.set_val(CfgKey::TargetColor, ValType::ColorRgb8(Color::new(10, 20, 30, 40))).unwrap();
    let text = cfg.to_text(None);
    assert!(String::from_utf8(text.clone()).unwrap().ends_with("target_color = 10, 20, 30, 40\n"));
    let back = Config::from_text(&text).unwrap();
    assert_eq!(back.get(CfgKey::TargetColor), ValType::ColorRgb8(Color::new(10, 20, 30, 40)));
    assert_eq!(values(&back), values(&cfg));
    cfg.set_val(CfgKey::TargetColor, ValType::ColorRgb8(Color::new(0, 0, 0, 0))).unwrap();
    let back = Config::from_text(&cfg.to_text(None)).unwrap();
    assert_eq!(back.get(CfgKey::TargetColor), ValType::ColorRgb8(Color::new(0, 0, 0, 0)));
}

#[test]
fn written_over_any_text_the_config_reads_back_the_same() {
    let mut cfg = Config::default();
    cfg.set_bounds(CfgKey::CropW, ValType::Unsigned(Bounded::new(0, 0, 959))).unwrap_err();
    cfg.set_bounds(CfgKey::CropW, ValType::Unsigned(Bounded::new(0, 1000, 9999))).unwrap();
    cfg.set_val(CfgKey::CropW, unsigned(9999)).unwrap();
    cfg.set_val(CfgKey::TargetColor, ValType::ColorRgb8(Color::new(1, 2, 3, 4))).unwrap();
    let texts: [&[u8]; 6] = [
        b"",
        b"\n\n\n",
        b"crop_w = 5\ncrop_w = 6, 0, 10 # again\n",
        b"target_color = 1,2,3\r\n# end",
        b"no equals sign\nfps = x\n= \n#\n",
        VALUES_ONLY_TEXT.as_bytes(),
    ];
    for existing in texts {
        let out = cfg.to_text(Some(existing));
        let back = Config::from_text(&out).unwrap();
        assert_eq!(values(&back), values(&cfg), "{:?}", String::from_utf8_lossy(existing));
    }
}

#[test]
fn reading_takes_the_last_of_two_lines_for_a_key() {
    let text = format!("{}fps = 30\nfps=31 # last\n", DEFAULT_TEXT);
    let cfg = Config::from_text(text.as_bytes()).unwrap();
    assert_eq!(cfg.get(CfgKey::Fps), ValType::Unsigned(Bounded::new(31, 1, 240)));
    let text = format!("{}fps = 30, 20, 40\n", DEFAULT_TEXT);
    let cfg = Config::from_text(text.as_bytes()).unwrap();
    assert_eq!(cfg.get(CfgKey::Fps), ValType::Unsigned(Bounded::new(30, 20, 40)));
    assert_eq!(cfg.get(CfgKey::AimSteps), ValType::Unsigned(Bounded::new(2, 1, 10)));
}

#[test]
fn reading_takes_carriage_returns_before_line_feeds() {
    let text = DEFAULT_TEXT.replace('\n', "\r\n");
    let cfg = Config::from_text(text.as_bytes()).unwrap();
    assert_eq!(values(&cfg), values(&Config::default()));
}

#[test]
fn missing_keys_get_their_defaults_and_are_listed() {
    match Config::from_text(b"fps = 60\n\n# nothing else\naim_steps = 3") {
        Err(ParseError::NotExhaustive(cfg, missing)) => {
            assert_eq!(cfg.get(CfgKey::Fps), ValType::Unsigned(Bounded::new(60, 1, 240)));
            assert_eq!(cfg.get(CfgKey::AimSteps), ValType::Unsigned(Bounded::new(3, 1, 10)));
            assert_eq!(cfg.get(CfgKey::CropW), CfgKey::CropW.default_val());
            assert!(!cfg.is_dirty);
            let want: Vec<CfgKey> = CfgKey::iter()
                .into_iter()
                .filter(|k| *k != CfgKey::Fps && *k != CfgKey::AimSteps)
                .collect();
            assert_eq!(missing, want);
        }
        other => panic!("{:?}", other),
    }
    match Config::from_text(b"") {
        Err(ParseError::NotExhaustive(cfg, missing)) => {
            assert_eq!(values(&cfg), values(&Config::default()));
            assert_eq!(missing, CfgKey::iter());
        }
        other => panic!("{:?}", other),
    }
}

#[test]
fn first_bad_line_ends_the_reading() {
    assert!(matches!(
        Config::from_text(b"fps = 60\nspeed = 3\nfps = 9999\n"),
        Err(ParseError::InvalidKey(2))
    ));
    assert!(matches!(
        Config::from_text(b"\n\nfps = 9999\nspeed = 3\n"),
        Err(ParseError::OutOfBounds(3))
    ));
    assert!(matches!(
        Config::from_text(b"# a\n# b\n# c\nnonsense"),
        Err(ParseError::Parse(4, ParseFault::NoDelimiter))
    ));
    assert!(matches!(
        Config::from_text(b"fps = 60\r"),
        Err(ParseError::Parse(1, ParseFault::Integer(NumError::InvalidDigit)))
    ));
}

#[test]
fn writing_over_a_file_keeps_comments_and_order() {
    let mut cfg = Config::default();
    cfg.set_val(CfgKey::Fps, unsigned(60)).unwrap();
    cfg.set_val(CfgKey::TargetColor, ValType::ColorRgb8(Color::new(1, 2, 3, 255))).unwrap();
    let existing = b"# my settings\n\
target_color=9,9,9#pink\n\
\n\
this line is broken\n\
fps =   144\n\
fps = 10 # twice\n\
unknown = 1\n\
crop_w = 99999\n";
    let out = String::from_utf8(cfg.to_text(Some(existing))).unwrap();
    let want = "# my settings\n\
target_color = 1, 2, 3, 255 #pink\n\
\n\
fps = 60, 1, 240\n\
fps = 60, 1, 240 # twice\n\
crop_w = 1152, 0, 2559\n\
crop_h = 592, 0, 1439\n\
color_thresh = 0.83, 0.001, 0.999\n\
aim_divisor = 3, 1, 10\n\
y_multiplier = 0.9, 0, 1\n\
max_autoclick_sleep_ms = 90, 0, 100\n\
min_autoclick_sleep_ms = 50, 0, 100\n\
aim_duration_micros = 50, 0, 2000\n\
aim_steps = 2, 1, 10\n\
aim_keycode = 1\n\
autoclick_keycode = 1\n\
toggle_aim_keycode = 190\n\
toggle_autoclick_keycode = 188\n\
fake_lmb_keycode = 4\n";
    assert_eq!(out, want);
    let back = Config::from_text(out.as_bytes()).unwrap();
    assert_eq!(values(&back), values(&cfg));
}
