//! The configuration as text: one `key = value` a line, with `#` before a
//! comment, spaces meaning nothing outside comments.
//!
//! A value is written whole: a number with its least and its greatest value
//! after it, a colour with its alpha, the parts with commas between them.
//! A number that stands alone takes the bounds of the default of its key,
//! and a colour of three parts is opaque.

use crate::config::names::key_named;
use crate::config::number::decimal;
use crate::config::number::find_byte;
use crate::config::number::index_of;
use crate::config::number::parse_thousandths;
use crate::config::number::parse_unsigned;
use crate::config::number::push_decimal;
use crate::config::number::push_thousandths;
use crate::config::number::read_thousandths;
use crate::config::number::read_unsigned;
use crate::config::number::split_once;
use crate::config::number::thousandths;
use crate::config::number::NumError;
use crate::config::well_typed;
use crate::config::Bounded;
use crate::config::CfgKey;
use crate::config::Config;
use crate::config::ValType;
use crate::config::N_CFG_KEYS;
use crate::fx::map_contains;
use crate::fx::map_insert;
use crate::image::Color;
use rustc_hash::FxHashMap;
use vstd::prelude::*;

verus! {

pub const SPACE: u8 = 32;

pub const HASH: u8 = 35;

pub const COMMA: u8 = 44;

pub const EQUALS: u8 = 61;

pub const NEWLINE: u8 = 10;

pub const RETURN: u8 = 13;

/// What is wrong with the text of a line.
#[derive(Debug, Clone, Copy, PartialEq, Eq, Structural)]
pub enum ParseFault {
    /// There is text but no `=` in it.
    NoDelimiter,
    /// A colour has neither three parts nor four.
    InvalidColor,
    /// A bounded value has neither one part nor three.
    InvalidBounds,
    /// A whole number could not be read.
    Integer(NumError),
    /// A fraction could not be read.
    Fraction(NumError),
}

/// Why a line was not taken; each with the number of the line.
#[derive(Debug, Clone, Copy, PartialEq, Eq, Structural)]
pub enum LineError {
    Parse(u32, ParseFault),
    InvalidKey(u32),
    OutOfBounds(u32),
}

/// Why a text gave no configuration, or not a whole one.
#[derive(Debug)]
pub enum ParseError {
    /// The text of a line is wrong.
    Parse(u32, ParseFault),
    /// A line names no key.
    InvalidKey(u32),
    /// A line holds a number outside the bounds of its key.
    OutOfBounds(u32),
    /// Every line was taken, but these keys stand on none; the configuration
    /// holds the defaults for them.
    NotExhaustive(Config, Vec<CfgKey>),
}

impl ParseError {
    /// The error that stands for a line that was not taken.
    pub open spec fn of_line(e: LineError) -> ParseError {
        match e {
            LineError::Parse(n, f) => ParseError::Parse(n, f),
            LineError::InvalidKey(n) => ParseError::InvalidKey(n),
            LineError::OutOfBounds(n) => ParseError::OutOfBounds(n),
        }
    }
}

/// What a line holds: a key with its value, a comment, both or neither.
#[derive(Debug)]
pub struct LineData {
    pub key_val_pair: Option<(CfgKey, ValType)>,
    pub comment: Option<Vec<u8>>,
}

/// What a line holds, in mathematical values.
pub struct Line {
    pub pair: Option<(CfgKey, ValType)>,
    pub comment: Option<Seq<u8>>,
}

impl LineData {
    /// What the line holds, in mathematical values.
    pub open spec fn view(&self) -> Line {
        Line {
            pair: self.key_val_pair,
            comment: match self.comment {
                Some(c) => Some(c@),
                None => None,
            },
        }
    }
}

/// `s` without its spaces.
pub open spec fn without_spaces(s: Seq<u8>) -> Seq<u8>
    decreases s.len(),
{
    if s.len() == 0 {
        s
    } else if s.last() == SPACE {
        without_spaces(s.drop_last())
    } else {
        without_spaces(s.drop_last()).push(s.last())
    }
}

/// What stands between two parts of a value.
pub open spec fn separator() -> Seq<u8> {
    seq![COMMA, SPACE]
}

/// The text of a value. A key code is written in digits. A whole number
/// inside bounds is written with its least and its greatest value after it,
/// a fraction likewise, each with a point where it has thousandths. A
/// colour is written as its red, green, blue and alpha. The parts of a value
/// stand with a comma and a space between them.
pub open spec fn value_text(v: ValType) -> Seq<u8> {
    match v {
        ValType::Keycode(k) => decimal(k as nat),
        ValType::Unsigned(b) => decimal(b.val as nat) + separator() + decimal(b.min as nat)
            + separator() + decimal(b.max as nat),
        ValType::Decimal(b) => thousandths(b.val as nat) + separator() + thousandths(
            b.min as nat,
        ) + separator() + thousandths(b.max as nat),
        ValType::ColorRgb8(c) => decimal(c.r as nat) + separator() + decimal(c.g as nat)
            + separator() + decimal(c.b as nat) + separator() + decimal(c.a as nat),
    }
}

/// The parts of `s` between its commas, from the left.
pub open spec fn fields(s: Seq<u8>) -> Seq<Seq<u8>>
    decreases s.len(),
{
    match split_once(s, COMMA) {
        None => seq![s],
        Some((head, rest)) => {
            proof {
                crate::config::number::lemma_index_of(s, COMMA);
            }
            if rest.len() < s.len() {
                seq![head] + fields(rest)
            } else {
                seq![s]
            }
        },
    }
}

/// The number up to `max` that `s` writes: a fraction in thousandths, or a
/// whole number.
pub open spec fn read_number(s: Seq<u8>, fraction: bool, max: u32) -> Result<u32, NumError> {
    let read = if fraction {
        parse_thousandths(s, max as nat)
    } else {
        parse_unsigned(s, max as nat)
    };
    match read {
        Ok(v) => Ok(v as u32),
        Err(e) => Err(e),
    }
}

/// The numbers that the parts `f` write, read from the left: the first part
/// that is no number ends the reading.
pub open spec fn read_numbers(f: Seq<Seq<u8>>, fraction: bool, max: u32) -> Result<
    Seq<u32>,
    NumError,
>
    decreases f.len(),
{
    if f.len() == 0 {
        Ok(Seq::empty())
    } else {
        match read_numbers(f.drop_last(), fraction, max) {
            Err(e) => Err(e),
            Ok(v) => match read_number(f.last(), fraction, max) {
                Err(e) => Err(e),
                Ok(x) => Ok(v.push(x)),
            },
        }
    }
}

/// The numbers that stand between the commas of `s`, on line `n`.
pub open spec fn parse_numbers(s: Seq<u8>, fraction: bool, max: u32, n: u32) -> Result<
    Seq<u32>,
    LineError,
> {
    match read_numbers(fields(s), fraction, max) {
        Ok(v) => Ok(v),
        Err(e) => Err(
            LineError::Parse(
                n,
                if fraction {
                    ParseFault::Fraction(e)
                } else {
                    ParseFault::Integer(e)
                },
            ),
        ),
    }
}

/// A bounded value from its text on line `n`. One number is the value
/// alone, and takes the bounds `d` of the default; three are the value, the
/// least and the greatest. Either way the value lies inside the bounds.
pub open spec fn parse_bounded(d: Bounded<u32>, s: Seq<u8>, fraction: bool, n: u32) -> Result<
    Bounded<u32>,
    LineError,
> {
    match parse_numbers(s, fraction, u32::MAX, n) {
        Err(e) => Err(e),
        Ok(v) => if v.len() == 1 {
            if d.admits(v[0]) {
                Ok(Bounded { val: v[0], min: d.min, max: d.max })
            } else {
                Err(LineError::OutOfBounds(n))
            }
        } else if v.len() == 3 {
            if v[1] <= v[0] <= v[2] {
                Ok(Bounded { val: v[0], min: v[1], max: v[2] })
            } else {
                Err(LineError::OutOfBounds(n))
            }
        } else {
            Err(LineError::Parse(n, ParseFault::InvalidBounds))
        },
    }
}

/// A colour from its text on line `n`: red, green and blue, and alpha after
/// them or, where there are three parts only, an opaque colour.
pub open spec fn parse_color(s: Seq<u8>, n: u32) -> Result<Color<u8>, LineError> {
    match parse_numbers(s, false, 255, n) {
        Err(e) => Err(e),
        Ok(v) => if v.len() == 3 {
            Ok(Color { r: v[0] as u8, g: v[1] as u8, b: v[2] as u8, a: 255 })
        } else if v.len() == 4 {
            Ok(Color { r: v[0] as u8, g: v[1] as u8, b: v[2] as u8, a: v[3] as u8 })
        } else {
            Err(LineError::Parse(n, ParseFault::InvalidColor))
        },
    }
}

/// The value of `key` from its text on line `n`: of the kind of the default
/// of `key` and, where that has bounds, inside its bounds.
pub open spec fn parse_value(key: CfgKey, s: Seq<u8>, n: u32) -> Result<ValType, LineError> {
    match key.default_spec() {
        ValType::Keycode(_) => match parse_unsigned(s, 0xFFFF) {
            Ok(v) => Ok(ValType::Keycode(v as u16)),
            Err(e) => Err(LineError::Parse(n, ParseFault::Integer(e))),
        },
        ValType::Unsigned(d) => match parse_bounded(d, s, false, n) {
            Ok(b) => Ok(ValType::Unsigned(b)),
            Err(e) => Err(e),
        },
        ValType::Decimal(d) => match parse_bounded(d, s, true, n) {
            Ok(b) => Ok(ValType::Decimal(b)),
            Err(e) => Err(e),
        },
        ValType::ColorRgb8(_) => match parse_color(s, n) {
            Ok(c) => Ok(ValType::ColorRgb8(c)),
            Err(e) => Err(e),
        },
    }
}

/// The key and the value that stand in `key_val`, the text of a line
/// before its comment and without its spaces: nothing if there is no text;
/// else the name of a key before the first `=` and the text of its value
/// after it.
pub open spec fn parse_pair(key_val: Seq<u8>, n: u32) -> Result<
    Option<(CfgKey, ValType)>,
    LineError,
> {
    match split_once(key_val, EQUALS) {
        None => if key_val.len() == 0 {
            Ok(None)
        } else {
            Err(LineError::Parse(n, ParseFault::NoDelimiter))
        },
        Some((key_str, val_str)) => match key_named(key_str) {
            None => Err(LineError::InvalidKey(n)),
            Some(key) => match parse_value(key, val_str, n) {
                Ok(v) => Ok(Some((key, v))),
                Err(e) => Err(e),
            },
        },
    }
}

/// What line `n` holds. What follows the first `#` is the comment; what
/// stands before it, its spaces dropped, is a key with its value, or
/// nothing.
pub open spec fn parse_line_spec(line: Seq<u8>, n: u32) -> Result<Line, LineError> {
    let (body, comment) = match split_once(line, HASH) {
        Some((body, comment)) => (body, Some(comment)),
        None => (line, None),
    };
    match parse_pair(without_spaces(body), n) {
        Ok(pair) => Ok(Line { pair, comment }),
        Err(e) => Err(e),
    }
}

/// `line` without a carriage return at its end.
pub open spec fn chomp(line: Seq<u8>) -> Seq<u8> {
    if line.len() > 0 && line.last() == RETURN {
        line.drop_last()
    } else {
        line
    }
}

/// The first line of a text that is not empty: what stands before the first
/// line feed, without a carriage return right before it; the whole text if
/// there is no line feed.
pub open spec fn first_line(text: Seq<u8>) -> Seq<u8> {
    let i = index_of(text, NEWLINE);
    if i < text.len() {
        chomp(text.take(i))
    } else {
        text
    }
}

/// What follows the first line of a text.
pub open spec fn after_first_line(text: Seq<u8>) -> Seq<u8> {
    let i = index_of(text, NEWLINE);
    if i < text.len() {
        text.skip(i + 1)
    } else {
        Seq::<u8>::empty()
    }
}

/// What the lines of `text`, the first of which is line `n`, add to the
/// values in `acc`, a later line overriding an earlier one; the first line
/// that is not taken ends the reading.
pub open spec fn read_text(text: Seq<u8>, n: nat, acc: Map<usize, ValType>) -> Result<
    Map<usize, ValType>,
    LineError,
>
    decreases text.len(),
{
    if text.len() == 0 {
        Ok(acc)
    } else {
        match parse_line_spec(first_line(text), n as u32) {
            Err(e) => Err(e),
            Ok(line) => {
                proof {
                    crate::config::number::lemma_index_of(text, NEWLINE);
                }
                read_text(
                    after_first_line(text),
                    n + 1,
                    match line.pair {
                        Some((k, v)) => acc.insert(k.index(), v),
                        None => acc,
                    },
                )
            },
        }
    }
}

/// The values of `acc`, and the default for each key that `acc` leaves out.
pub open spec fn with_defaults(acc: Map<usize, ValType>) -> Map<CfgKey, ValType> {
    Map::new(
        |k: CfgKey| true,
        |k: CfgKey|
            if acc.contains_key(k.index()) {
                acc[k.index()]
            } else {
                k.default_spec()
            },
    )
}

/// The keys from place `from` on that `acc` leaves out, in order.
pub open spec fn missing_from(acc: Map<usize, ValType>, from: nat) -> Seq<CfgKey>
    decreases N_CFG_KEYS - from,
{
    if from >= N_CFG_KEYS {
        Seq::empty()
    } else if acc.contains_key(from as usize) {
        missing_from(acc, from + 1)
    } else {
        seq![CfgKey::at(from as int)] + missing_from(acc, from + 1)
    }
}

/// Reads a value of `key` from its text on line `line_num`.
pub fn read_value(key: CfgKey, s: &[u8], line_num: u32) -> (res: Result<ValType, ParseError>)
    ensures
        match parse_value(key, s@, line_num) {
            Ok(v) => res matches Ok(got) && got == v && v.same_kind(key.default_spec())
                && v.in_bounds(),
            Err(e) => res matches Err(err) && err == ParseError::of_line(e),
        },
{
    match key.default_val() {
        ValType::Keycode(_) => match read_unsigned(s, 0xFFFF) {
            Ok(v) => Ok(ValType::Keycode(v as u16)),
            Err(e) => Err(ParseError::Parse(line_num, ParseFault::Integer(e))),
        },
        ValType::Unsigned(d) => match read_bounded(d, s, false, line_num) {
            Ok(b) => Ok(ValType::Unsigned(b)),
            Err(e) => Err(e),
        },
        ValType::Decimal(d) => match read_bounded(d, s, true, line_num) {
            Ok(b) => Ok(ValType::Decimal(b)),
            Err(e) => Err(e),
        },
        ValType::ColorRgb8(_) => match read_color(s, line_num) {
            Ok(c) => Ok(ValType::ColorRgb8(c)),
            Err(e) => Err(e),
        },
    }
}

/// What stands before and what after the byte at `i` in `s`.
fn split_at_byte(s: &[u8], i: usize) -> (parts: (&[u8], &[u8]))
    requires
        i < s@.len(),
    ensures
        parts.0@ == s@.take(i as int),
        parts.1@ == s@.skip(i + 1),
{
    let len = s.len();
    let head = vstd::slice::slice_subrange(s, 0, i);
    let tail = vstd::slice::slice_subrange(s, i + 1, len);
    proof {
        assert(head@ =~= s@.take(i as int));
        assert(tail@ =~= s@.skip(i + 1));
    }
    (head, tail)
}

/// Once a part is no number, no part after it mends the reading.
pub proof fn lemma_read_numbers_fails(
    f: Seq<Seq<u8>>,
    more: Seq<Seq<u8>>,
    fraction: bool,
    max: u32,
)
    requires
        read_numbers(f, fraction, max) is Err,
    ensures
        read_numbers(f + more, fraction, max) == read_numbers(f, fraction, max),
    decreases more.len(),
{
    if more.len() == 0 {
        assert(f + more =~= f);
    } else {
        lemma_read_numbers_fails(f, more.drop_last(), fraction, max);
        assert((f + more).drop_last() =~= f + more.drop_last());
    }
}

/// Reads the numbers up to `max` that stand between the commas of `s`:
/// fractions in thousandths, or whole numbers.
#[verifier::loop_isolation(false)]
pub fn read_numbers_in(s: &[u8], fraction: bool, max: u32) -> (res: Result<Vec<u32>, NumError>)
    ensures
        match read_numbers(fields(s@), fraction, max) {
            Ok(v) => res matches Ok(got) && got@ == v,
            Err(e) => res == Err::<Vec<u32>, NumError>(e),
        },
{
    let mut nums: Vec<u32> = Vec::new();
    let mut rest: &[u8] = s;
    let ghost mut done: Seq<Seq<u8>> = Seq::empty();
    proof {
        assert(done + fields(rest@) =~= fields(s@));
    }
    loop
        invariant
            fields(s@) == done + fields(rest@),
            read_numbers(done, fraction, max) == Ok::<Seq<u32>, NumError>(nums@),
        decreases rest@.len(),
    {
        let i = find_byte(rest, COMMA);
        let last = i >= rest.len();
        let (field, tail): (&[u8], &[u8]) = if last {
            (rest, rest)
        } else {
            split_at_byte(rest, i)
        };
        proof {
            crate::config::number::lemma_index_of(rest@, COMMA);
            assert(fields(rest@) == if last {
                seq![rest@]
            } else {
                seq![field@] + fields(tail@)
            });
            assert(done.push(field@).drop_last() =~= done);
        }
        let read = if fraction {
            read_thousandths(field, max)
        } else {
            read_unsigned(field, max)
        };
        match read {
            Err(e) => {
                proof {
                    let more = if last {
                        Seq::<Seq<u8>>::empty()
                    } else {
                        fields(tail@)
                    };
                    assert(fields(s@) =~= done.push(field@) + more);
                    lemma_read_numbers_fails(done.push(field@), more, fraction, max);
                }
                return Err(e);
            },
            Ok(v) => {
                nums.push(v);
            },
        }
        proof {
            done = done.push(field@);
            if last {
                assert(fields(s@) =~= done);
            } else {
                assert(fields(s@) =~= done + fields(tail@));
            }
        }
        if last {
            return Ok(nums);
        }
        rest = tail;
    }
}

/// Reads a bounded value from its text on line `line_num`; `d` holds the
/// bounds for a text that holds none.
pub fn read_bounded(d: Bounded<u32>, s: &[u8], fraction: bool, line_num: u32) -> (res: Result<
    Bounded<u32>,
    ParseError,
>)
    ensures
        match parse_bounded(d, s@, fraction, line_num) {
            Ok(b) => res matches Ok(got) && got == b && b.admits(b.val),
            Err(e) => res matches Err(err) && err == ParseError::of_line(e),
        },
{
    let nums = match read_numbers_in(s, fraction, u32::MAX) {
        Ok(nums) => nums,
        Err(e) => {
            return Err(
                ParseError::Parse(
                    line_num,
                    if fraction {
                        ParseFault::Fraction(e)
                    } else {
                        ParseFault::Integer(e)
                    },
                ),
            );
        },
    };
    if nums.len() == 1 {
        if d.contains(nums[0]) {
            Ok(Bounded::new(nums[0], d.min, d.max))
        } else {
            Err(ParseError::OutOfBounds(line_num))
        }
    } else if nums.len() == 3 {
        if nums[1] <= nums[0] && nums[0] <= nums[2] {
            Ok(Bounded::new(nums[0], nums[1], nums[2]))
        } else {
            Err(ParseError::OutOfBounds(line_num))
        }
    } else {
        Err(ParseError::Parse(line_num, ParseFault::InvalidBounds))
    }
}

/// Numbers that were read are no greater than the greatest that is taken.
pub proof fn lemma_read_numbers_bound(f: Seq<Seq<u8>>, fraction: bool, max: u32)
    requires
        read_numbers(f, fraction, max) is Ok,
    ensures
        read_numbers(f, fraction, max).unwrap().len() == f.len(),
        forall|i: int|
            0 <= i < f.len() ==> #[trigger] read_numbers(f, fraction, max).unwrap()[i] <= max,
    decreases f.len(),
{
    if f.len() > 0 {
        lemma_read_numbers_bound(f.drop_last(), fraction, max);
        crate::config::number::lemma_parse_bound(f.last(), max as nat);
    }
}

/// Reads a colour from its text on line `line_num`.
pub fn read_color(s: &[u8], line_num: u32) -> (res: Result<Color<u8>, ParseError>)
    ensures
        match parse_color(s@, line_num) {
            Ok(c) => res matches Ok(got) && got == c,
            Err(e) => res matches Err(err) && err == ParseError::of_line(e),
        },
{
    let nums = match read_numbers_in(s, false, 255) {
        Ok(nums) => nums,
        Err(e) => {
            return Err(ParseError::Parse(line_num, ParseFault::Integer(e)));
        },
    };
    proof {
        lemma_read_numbers_bound(fields(s@), false, 255);
    }
    if nums.len() == 3 {
        Ok(Color::new(nums[0] as u8, nums[1] as u8, nums[2] as u8, 255))
    } else if nums.len() == 4 {
        Ok(Color::new(nums[0] as u8, nums[1] as u8, nums[2] as u8, nums[3] as u8))
    } else {
        Err(ParseError::Parse(line_num, ParseFault::InvalidColor))
    }
}

/// `s` without its spaces.
pub fn strip_spaces(s: &[u8]) -> (out: Vec<u8>)
    ensures
        out@ == without_spaces(s@),
{
    let mut out: Vec<u8> = Vec::new();
    let mut i: usize = 0;
    while i < s.len()
        invariant
            i <= s@.len(),
            out@ == without_spaces(s@.take(i as int)),
        decreases s@.len() - i,
    {
        proof {
            assert(s@.take(i + 1).drop_last() =~= s@.take(i as int));
        }
        if s[i] != SPACE {
            out.push(s[i]);
        }
        i += 1;
    }
    proof {
        assert(s@.take(s@.len() as int) =~= s@);
    }
    out
}

/// Reads what line `line_num` holds.
pub fn parse_line(line: &[u8], line_num: u32) -> (res: Result<LineData, ParseError>)
    ensures
        match parse_line_spec(line@, line_num) {
            Ok(l) => res matches Ok(data) && data.view() == l && (l.pair matches Some((k, v))
                ==> v.same_kind(k.default_spec()) && v.in_bounds()),
            Err(e) => res matches Err(err) && err == ParseError::of_line(e),
        },
{
    let hash = find_byte(line, HASH);
    let (body, comment): (&[u8], Option<Vec<u8>>) = if hash < line.len() {
        let (body, comment) = split_at_byte(line, hash);
        (body, Some(vstd::slice::slice_to_vec(comment)))
    } else {
        (line, None)
    };
    let key_val = strip_spaces(body);
    let eq = find_byte(key_val.as_slice(), EQUALS);
    if eq >= key_val.len() {
        if key_val.len() == 0 {
            return Ok(LineData { key_val_pair: None, comment });
        } else {
            return Err(ParseError::Parse(line_num, ParseFault::NoDelimiter));
        }
    }
    let (key_str, val_str) = split_at_byte(key_val.as_slice(), eq);
    let key = match CfgKey::from_name(key_str) {
        Some(key) => key,
        None => {
            return Err(ParseError::InvalidKey(line_num));
        },
    };
    let val = read_value(key, val_str, line_num)?;
    Ok(LineData { key_val_pair: Some((key, val)), comment })
}

/// The first line of what is left of `text` from `pos` on, and where the
/// line after it starts.
pub fn next_line(text: &[u8], pos: usize) -> (out: (&[u8], usize))
    requires
        pos < text@.len(),
    ensures
        out.0@ == first_line(text@.skip(pos as int)),
        pos < out.1 <= text@.len(),
        text@.skip(out.1 as int) == after_first_line(text@.skip(pos as int)),
{
    let rest = vstd::slice::slice_subrange(text, pos, text.len());
    proof {
        assert(rest@ =~= text@.skip(pos as int));
    }
    let i = find_byte(rest, NEWLINE);
    if i < rest.len() {
        let line = if i > 0 && rest[i - 1] == RETURN {
            vstd::slice::slice_subrange(rest, 0, i - 1)
        } else {
            vstd::slice::slice_subrange(rest, 0, i)
        };
        proof {
            assert(line@ =~= chomp(rest@.take(i as int)));
            assert(text@.skip(pos + i + 1) =~= rest@.skip(i + 1));
        }
        (line, pos + i + 1)
    } else {
        proof {
            assert(text@.skip(text@.len() as int) =~= Seq::<u8>::empty());
        }
        (rest, text.len())
    }
}

impl Config {
    /// What a text gives: where every line is taken and every key stands on
    /// one, the configuration of the values read, unmarked; where keys are
    /// missing, those keys together with the configuration that holds the
    /// defaults for them; and where a line is not taken, why the first such
    /// line was not.
    pub fn from_text(text: &[u8]) -> (res: Result<Config, ParseError>)
        requires
            text@.len() < u32::MAX,
        ensures
            match read_text(text@, 1, Map::empty()) {
                Err(e) => res matches Err(err) && err == ParseError::of_line(e),
                Ok(acc) => if missing_from(acc, 0).len() == 0 {
                    res matches Ok(cfg) && cfg@ == with_defaults(acc) && cfg.wf() && !cfg.dirty()
                } else {
                    res matches Err(ParseError::NotExhaustive(cfg, unused_keys)) && cfg@
                        == with_defaults(acc) && cfg.wf() && !cfg.dirty() && unused_keys@
                        == missing_from(acc, 0)
                },
            },
    {
        let mut out_map: FxHashMap<usize, ValType> = FxHashMap::default();
        let mut pos: usize = 0;
        let mut line_num: u32 = 1;
        proof {
            assert(text@.skip(0) =~= text@);
        }
        while pos < text.len()
            invariant
                pos <= text@.len() < u32::MAX,
                line_num <= pos + 1,
                well_typed(out_map@),
                read_text(text@, 1, Map::empty()) == read_text(
                    text@.skip(pos as int),
                    line_num as nat,
                    out_map@,
                ),
            decreases text@.len() - pos,
        {
            let (line, next) = next_line(text, pos);
            let data = parse_line(line, line_num)?;
            if let Some((k, v)) = data.key_val_pair {
                map_insert(&mut out_map, k.to_index(), v);
                proof {
                    assert forall|k2: CfgKey| #[trigger]
                        out_map@.contains_key(k2.index()) implies out_map@[k2.index()].same_kind(
                        k2.default_spec(),
                    ) && out_map@[k2.index()].in_bounds() by {
                        if k2.index() == k.index() {
                            crate::config::lemma_key_index(k);
                            crate::config::lemma_key_index(k2);
                        }
                    }
                }
            }
            pos = next;
            line_num += 1;
        }
        proof {
            assert(text@.skip(text@.len() as int).len() == 0);
        }
        let unused_keys = unused(&out_map);
        let ghost acc = out_map@;
        let cfg = Config::new(out_map);
        proof {
            assert(cfg@ =~= with_defaults(acc)) by {
                assert forall|k: CfgKey| cfg@.dom().contains(k) by {}
            }
        }
        if unused_keys.len() == 0 {
            Ok(cfg)
        } else {
            Err(ParseError::NotExhaustive(cfg, unused_keys))
        }
    }
}

/// The keys that `map` leaves out, in order.
fn unused(map: &FxHashMap<usize, ValType>) -> (keys: Vec<CfgKey>)
    ensures
        keys@ == missing_from(map@, 0),
{
    let mut keys: Vec<CfgKey> = Vec::new();
    let mut i: usize = N_CFG_KEYS;
    while i > 0
        invariant
            i <= N_CFG_KEYS,
            keys@.len() <= N_CFG_KEYS - i,
            missing_from(map@, i as nat) == Seq::new(
                keys@.len(),
                |k: int| keys@[keys@.len() - 1 - k],
            ),
        decreases i,
    {
        let ghost before = keys@;
        i -= 1;
        if !map_contains(map, i) {
            match CfgKey::from_index(i) {
                Some(key) => {
                    keys.push(key);
                    proof {
                        assert(missing_from(map@, i as nat) =~= Seq::new(
                            keys@.len(),
                            |k: int| keys@[keys@.len() - 1 - k],
                        ));
                    }
                },
                None => {},
            }
        } else {
            proof {
                assert(missing_from(map@, i as nat) =~= Seq::new(
                    keys@.len(),
                    |k: int| keys@[keys@.len() - 1 - k],
                ));
            }
        }
    }
    let mut ordered: Vec<CfgKey> = Vec::new();
    let n = keys.len();
    let mut k: usize = 0;
    while k < n
        invariant
            n == keys@.len(),
            k <= n,
            ordered@ == Seq::new(k as nat, |j: int| keys@[n - 1 - j]),
        decreases n - k,
    {
        ordered.push(keys[n - 1 - k]);
        k += 1;
        assert(ordered@ =~= Seq::new(k as nat, |j: int| keys@[n - 1 - j]));
    }
    ordered
}

} // verus!
