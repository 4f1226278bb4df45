use pixel_bot::config::message::fault_str;
use pixel_bot::config::message::push_number;
use pixel_bot::config::names::camel_to_snake;
use pixel_bot::config::number::NumError;
use pixel_bot::config::text::ParseError;
use pixel_bot::config::text::ParseFault;
use pixel_bot::config::Bounded;
use pixel_bot::config::CfgKey;
use pixel_bot::config::Config;
use pixel_bot::config::ValType;
use pixel_bot::gui::wrap_str_inplace;
use pixel_bot::startup::choose_config;
use pixel_bot::startup::fit_to_screen;
use pixel_bot::startup::Loaded;

fn wrap(text: &str, line_w: usize) -> String {
    let mut bytes = text.as_bytes().to_vec();
    wrap_str_inplace(&mut bytes, line_w);
    String::from_utf8(bytes).unwrap()
}

fn values(cfg: &Config) -> Vec<ValType> {
    CfgKey::iter().into_iter().map(|k| cfg.get(k)).collect()
}

#[test]
fn variant_names_turn_into_key_names() {
    for k in CfgKey::iter() {
        assert_eq!(camel_to_snake(k.variant_name().as_bytes()), k.as_string().into_bytes());
    }
    assert_eq!(CfgKey::MaxAutoclickSleepMs.variant_name(), "MaxAutoclickSleepMs");
}

#[test]
fn camel_to_snake_opens_a_word_at_each_capital() {
    assert_eq!(camel_to_snake(b"CropW"), b"crop_w".to_vec());
    assert_eq!(camel_to_snake(b"cropW"), b"crop_w".to_vec());
    assert_eq!(camel_to_snake(b"ABC"), b"a_b_c".to_vec());
    assert_eq!(camel_to_snake(b"already_snake"), b"already_snake".to_vec());
    assert_eq!(camel_to_snake(b"X"), b"x".to_vec());
    assert_eq!(camel_to_snake(b""), Vec::<u8>::new());
    assert_eq!(camel_to_snake(b"Fps2Go"), b"fps2_go".to_vec());
}

#[test]
fn errors_say_what_went_wrong_and_where() {
    assert_eq!(
        ParseError::Parse(12, ParseFault::NoDelimiter).message(),
        "Parse error on line 12 => No delimiter"
    );
    assert_eq!(
        ParseError::Parse(1, ParseFault::InvalidColor).message(),
        "Parse error on line 1 => Invalid color"
    );
    assert_eq!(
        ParseError::Parse(7, ParseFault::InvalidBounds).message(),
        "Parse error on line 7 => Invalid bounds"
    );
    assert_eq!(fault_str(ParseFault::InvalidBounds), "Invalid bounds");
    assert_eq!(
        ParseError::Parse(3, ParseFault::Integer(NumError::InvalidDigit)).message(),
        "Parse error on line 3 => invalid digit found in string"
    );
    assert_eq!(
        ParseError::Parse(3, ParseFault::Integer(NumError::Empty)).message(),
        "Parse error on line 3 => cannot parse integer from empty string"
    );
    assert_eq!(
        ParseError::Parse(3, ParseFault::Integer(NumError::TooLarge)).message(),
        "Parse error on line 3 => number too large to fit in target type"
    );
    assert_eq!(
        ParseError::Parse(3, ParseFault::Fraction(NumError::Empty)).message(),
        "Parse error on line 3 => cannot parse float from empty string"
    );
    assert_eq!(
        ParseError::Parse(3, ParseFault::Fraction(NumError::TooLarge)).message(),
        "Parse error on line 3 => invalid float literal"
    );
    assert_eq!(ParseError::InvalidKey(4294967295).message(), "Invalid key on line 4294967295");
    assert_eq!(ParseError::OutOfBounds(0).message(), "Out of bounds value on line 0");
    assert_eq!(fault_str(ParseFault::Fraction(NumError::InvalidDigit)), "invalid float literal");
}

#[test]
fn missing_keys_are_named_in_the_message() {
    let err = ParseError::NotExhaustive(Config::default(), vec![CfgKey::Fps, CfgKey::CropW]);
    assert_eq!(err.message(), "Using defaults for missing values:\n| fps | crop_w |");
    let none = ParseError::NotExhaustive(Config::default(), vec![]);
    assert_eq!(none.message(), "Using defaults for missing values:\n|");
    match Config::from_text(b"fps = 1") {
        Err(e) => assert!(e.message().starts_with("Using defaults for missing values:\n| crop_w | crop_h |")),
        Ok(_) => panic!("a text with one key is no whole configuration"),
    }
}

#[test]
fn numbers_are_written_into_strings() {
    let mut s = String::from("line ");
    push_number(&mut s, 0);
    s.push(' ');
    push_number(&mut s, 1090);
    assert_eq!(s, "line 0 1090");
}

#[test]
fn short_lines_are_not_wrapped() {
    assert_eq!(wrap("", 5), "");
    assert_eq!(wrap("hello", 5), "hello");
    assert_eq!(wrap("hi you", 5), "hi you");
    assert_eq!(wrap("a b\nc d\n", 5), "a b\nc d\n");
    assert_eq!(wrap(" ", 0), " ");
}

#[test]
fn long_lines_break_at_the_last_space_that_fits() {
    assert_eq!(wrap("hi you!", 5), "hi\nyou!");
    assert_eq!(wrap("Press any key...", 7), "Press\nany\nkey...");
    assert_eq!(wrap("Cycle Autoclick Mode", 10), "Cycle\nAutoclick\nMode");
    assert_eq!(wrap("a b c d e f", 2), "a\nb\nc\nd\ne f");
    assert_eq!(wrap("a b c d e f", 1), "a\nb\nc\nd\ne\nf");
    assert_eq!(wrap("a b c d e f", 3), "a b\nc d\ne f");
    assert_eq!(wrap(" ab", 0), "\nab");
    assert_eq!(wrap("ab cd\nef gh ij", 3), "ab\ncd\nef\ngh\nij");
}

#[test]
fn long_lines_without_a_space_in_reach_stay_whole() {
    assert_eq!(wrap("abcdefgh", 3), "abcdefgh");
    assert_eq!(wrap("a b c d e f", 0), "a b c d e f");
    assert_eq!(wrap("abcdefgh ij kl", 3), "abcdefgh ij kl");
    assert_eq!(wrap("ab cdefghij kl", 3), "ab\ncdefghij kl");
    assert_eq!(wrap("abcdefgh ij kl\nmn op qr", 3), "abcdefgh ij kl\nmn\nop\nqr");
}

#[test]
fn a_read_configuration_is_gone_on_with() {
    let mut cfg = Config::default();
    cfg.set_val(CfgKey::Fps, ValType::Unsigned(Bounded::new(60, 0, 0))).unwrap();
    let want = values(&cfg);
    let startup = choose_config(Loaded::Read(cfg));
    assert_eq!(values(&startup.config), want);
    assert!(!startup.save_default && !startup.fell_back);
}

#[test]
fn a_missing_file_gets_the_defaults_saved() {
    let startup = choose_config(Loaded::NotFound);
    assert_eq!(values(&startup.config), values(&Config::default()));
    assert!(startup.save_default && !startup.fell_back);
    let startup = choose_config(Loaded::Unreadable);
    assert_eq!(values(&startup.config), values(&Config::default()));
    assert!(!startup.save_default && !startup.fell_back);
}

#[test]
fn a_rejected_file_falls_back_unless_only_keys_are_missing() {
    let startup = choose_config(Loaded::Rejected(ParseError::InvalidKey(3)));
    assert_eq!(values(&startup.config), values(&Config::default()));
    assert!(!startup.save_default && startup.fell_back);
    let partial = match Config::from_text(b"fps = 60") {
        Err(e) => e,
        Ok(_) => panic!("a text with one key is no whole configuration"),
    };
    let startup = choose_config(Loaded::Rejected(partial));
    assert_eq!(
        startup.config.get(CfgKey::Fps),
        ValType::Unsigned(Bounded::new(60, 1, 240))
    );
    assert!(!startup.save_default && !startup.fell_back);
}

#[test]
fn crop_bounds_follow_the_screen() {
    let mut cfg = Config::default();
    cfg.set_val(CfgKey::Fps, ValType::Unsigned(Bounded::new(60, 0, 0))).unwrap();
    assert_eq!(fit_to_screen(&mut cfg, 2560, 1440), (Ok(()), Ok(())));
    assert_eq!(cfg.get(CfgKey::CropW), ValType::Unsigned(Bounded::new(1152, 0, 1279)));
    assert_eq!(cfg.get(CfgKey::CropH), ValType::Unsigned(Bounded::new(592, 0, 719)));
    assert!(!cfg.is_dirty());
    assert_eq!(cfg.get(CfgKey::Fps), ValType::Unsigned(Bounded::new(60, 1, 240)));
}

#[test]
fn crop_bounds_that_the_crop_breaks_are_refused() {
    let mut cfg = Config::default();
    let (w, h) = fit_to_screen(&mut cfg, 1920, 1200);
    assert_eq!(w, Err("Value not in bounds"));
    assert_eq!(h, Ok(()));
    assert_eq!(cfg.get(CfgKey::CropW), ValType::Unsigned(Bounded::new(1152, 0, 2559)));
    assert_eq!(cfg.get(CfgKey::CropH), ValType::Unsigned(Bounded::new(592, 0, 599)));
    assert!(!cfg.is_dirty());
    let mut cfg = Config::default();
    cfg.set_val(CfgKey::CropW, ValType::Unsigned(Bounded::new(0, 0, 0))).unwrap();
    cfg.set_val(CfgKey::CropH, ValType::Unsigned(Bounded::new(0, 0, 0))).unwrap();
    assert_eq!(fit_to_screen(&mut cfg, 2, 3), (Ok(()), Ok(())));
    assert_eq!(cfg.get(CfgKey::CropW), ValType::Unsigned(Bounded::new(0, 0, 0)));
}
