//! Writing the configuration as text, over what a file held before, and the
//! proof that reading gives back what was written.

use crate::config::complete;
use crate::config::names::is_name_byte;
use crate::config::names::lemma_key_named;
use crate::config::names::lemma_name_bytes;
use crate::config::number::decimal;
use crate::config::number::index_of;
use crate::config::number::is_digit;
use crate::config::number::lemma_decimal;
use crate::config::number::lemma_index_of;
use crate::config::number::lemma_index_of_is;
use crate::config::number::lemma_thousandths;
use crate::config::number::parse_unsigned;
use crate::config::number::push_decimal;
use crate::config::number::push_thousandths;
use crate::config::number::split_once;
use crate::config::number::thousandths;
use crate::config::number::unsigned_part;
use crate::config::number::NumError;
use crate::config::text::after_first_line;
use crate::config::text::first_line;
use crate::config::text::missing_from;
use crate::config::text::next_line;
use crate::config::text::fields;
use crate::config::text::read_number;
use crate::config::text::read_numbers;
use crate::config::text::separator;
use crate::config::text::parse_line;
use crate::config::text::parse_line_spec;
use crate::config::text::parse_pair;
use crate::config::text::chomp;
use crate::config::text::parse_value;
use crate::config::text::read_text;
use crate::config::text::value_text;
use crate::config::text::with_defaults;
use crate::config::text::without_spaces;
use crate::config::text::Line;
use crate::config::text::LineError;
use crate::config::text::COMMA;
use crate::config::text::EQUALS;
use crate::config::text::HASH;
use crate::config::text::NEWLINE;
use crate::config::text::RETURN;
use crate::config::text::SPACE;
use crate::config::CfgKey;
use crate::config::Config;
use crate::config::ValType;
use crate::config::N_CFG_KEYS;
use crate::fx::map_contains;
use crate::fx::map_insert;
use crate::image::Color;
use rustc_hash::FxHashMap;
use vstd::prelude::*;

verus! {

/// The line of a key, without its end: the name, ` = ` and the value.
pub open spec fn entry_text(k: CfgKey, v: ValType) -> Seq<u8> {
    k.name_bytes() + seq![SPACE, EQUALS, SPACE] + value_text(v)
}

/// The lines of the keys from place `from` on that are not among `written`,
/// in order.
pub open spec fn rest_text(m: Map<CfgKey, ValType>, written: Set<usize>, from: nat) -> Seq<u8>
    decreases N_CFG_KEYS - from,
{
    if from >= N_CFG_KEYS {
        Seq::empty()
    } else if written.contains(from as usize) {
        rest_text(m, written, from + 1)
    } else {
        entry_text(CfgKey::at(from as int), m[CfgKey::at(from as int)]) + seq![NEWLINE]
            + rest_text(m, written, from + 1)
    }
}

/// A line as it is written again: its key with the value that `m` holds for
/// it now, and its comment after a `#`, a space between the two.
pub open spec fn rewritten_line(line: Line, m: Map<CfgKey, ValType>) -> Seq<u8> {
    (match line.pair {
        Some((k, _)) => entry_text(k, m[k]) + (if line.comment is Some {
            seq![SPACE]
        } else {
            Seq::<u8>::empty()
        }),
        None => Seq::<u8>::empty(),
    }) + (match line.comment {
        Some(c) => seq![HASH] + c,
        None => Seq::<u8>::empty(),
    }) + seq![NEWLINE]
}

/// What writing over `text`, the first line of which is line `n`, adds to
/// `out`, and the keys that it adds to `written`: each line that can be read
/// is written again with the value that `m` holds now, and a line that
/// cannot be read is left out.
pub open spec fn rewrite(
    text: Seq<u8>,
    n: nat,
    m: Map<CfgKey, ValType>,
    out: Seq<u8>,
    written: Set<usize>,
) -> (Seq<u8>, Set<usize>)
    decreases text.len(),
{
    if text.len() == 0 {
        (out, written)
    } else {
        proof {
            lemma_index_of(text, NEWLINE);
        }
        match parse_line_spec(first_line(text), n as u32) {
            Err(_) => rewrite(after_first_line(text), n + 1, m, out, written),
            Ok(line) => rewrite(
                after_first_line(text),
                n + 1,
                m,
                out + rewritten_line(line, m),
                match line.pair {
                    Some((k, _)) => written.insert(k.index()),
                    None => written,
                },
            ),
        }
    }
}

/// The text of the configuration `m`, written over what `existing` held, if
/// anything: the lines of `existing` that can be read, each with the value
/// of its key as it is now, and then a line for every key that stood on
/// none.
pub open spec fn rendered(m: Map<CfgKey, ValType>, existing: Option<Seq<u8>>) -> Seq<u8> {
    match existing {
        None => rest_text(m, Set::empty(), 0),
        Some(text) => {
            let (out, written) = rewrite(text, 1, m, Seq::empty(), Set::empty());
            out + rest_text(m, written, 0)
        },
    }
}

/// Writes a comma and a space at the end of `out`.
fn push_separator(out: &mut Vec<u8>)
    ensures
        final(out)@ == old(out)@ + separator(),
{
    let ghost before = out@;
    out.push(COMMA);
    out.push(SPACE);
    proof {
        assert(out@ =~= before + separator());
    }
}

/// Writes the text of `v` at the end of `out`.
pub fn push_value(out: &mut Vec<u8>, v: ValType)
    ensures
        final(out)@ == old(out)@ + value_text(v),
{
    let ghost before = out@;
    match v {
        ValType::Keycode(k) => push_decimal(out, k as u32),
        ValType::Unsigned(b) => {
            push_decimal(out, b.val);
            push_separator(out);
            push_decimal(out, b.min);
            push_separator(out);
            push_decimal(out, b.max);
        },
        ValType::Decimal(b) => {
            push_thousandths(out, b.val);
            push_separator(out);
            push_thousandths(out, b.min);
            push_separator(out);
            push_thousandths(out, b.max);
        },
        ValType::ColorRgb8(c) => {
            push_decimal(out, c.r as u32);
            push_separator(out);
            push_decimal(out, c.g as u32);
            push_separator(out);
            push_decimal(out, c.b as u32);
            push_separator(out);
            push_decimal(out, c.a as u32);
        },
    }
    proof {
        assert(out@ =~= before + value_text(v));
    }
}

/// Writes the line of `k` with the value `v`, without its end, at the end of
/// `out`.
pub fn push_entry(out: &mut Vec<u8>, k: CfgKey, v: ValType)
    ensures
        final(out)@ == old(out)@ + entry_text(k, v),
{
    let ghost before = out@;
    let name = k.name_vec();
    out.extend_from_slice(name.as_slice());
    out.push(SPACE);
    out.push(EQUALS);
    out.push(SPACE);
    push_value(out, v);
    proof {
        assert(out@ =~= before + entry_text(k, v));
    }
}

impl Config {
    /// The configuration as text, written over what `existing` held, if
    /// anything, so that comments and the order of the lines stay.
    pub fn to_text(&self, existing: Option<&[u8]>) -> (out: Vec<u8>)
        requires
            self.wf(),
            existing matches Some(text) ==> text@.len() < u32::MAX,
        ensures
            out@ == rendered(
                self@,
                match existing {
                    Some(text) => Some(text@),
                    None => None,
                },
            ),
    {
        let mut out_content: Vec<u8> = Vec::new();
        let mut written_keys: FxHashMap<usize, bool> = FxHashMap::default();
        let ghost mut written: Set<usize> = Set::empty();
        if let Some(text) = existing {
            let mut pos: usize = 0;
            let mut line_num: u32 = 1;
            proof {
                assert(text@.skip(0) =~= text@);
            }
            while pos < text.len()
                invariant
                    self.wf(),
                    pos <= text@.len() < u32::MAX,
                    line_num <= pos + 1,
                    written_keys@.dom() == written,
                    rewrite(text@, 1, self@, Seq::empty(), Set::empty()) == rewrite(
                        text@.skip(pos as int),
                        line_num as nat,
                        self@,
                        out_content@,
                        written,
                    ),
                decreases text@.len() - pos,
            {
                let (line, next) = next_line(text, pos);
                match parse_line(line, line_num) {
                    Ok(line_data) => {
                        let ghost before = out_content@;
                        if let Some((k, _)) = line_data.key_val_pair {
                            let val = self.get(k);
                            push_entry(&mut out_content, k, val);
                            map_insert(&mut written_keys, k.to_index(), true);
                            proof {
                                written = written.insert(k.index());
                                assert(written_keys@.dom() =~= written);
                            }
                            if line_data.comment.is_some() {
                                out_content.push(SPACE);
                            }
                        }
                        if let Some(comment) = line_data.comment {
                            out_content.push(HASH);
                            out_content.extend_from_slice(comment.as_slice());
                        }
                        out_content.push(NEWLINE);
                        proof {
                            assert(out_content@ =~= before + rewritten_line(
                                line_data.view(),
                                self@,
                            ));
                        }
                    },
                    Err(_) => {},
                }
                pos = next;
                line_num += 1;
            }
            proof {
                assert(text@.skip(text@.len() as int).len() == 0);
            }
        }
        let ghost head = out_content@;
        let mut i: usize = 0;
        proof {
            assert(head =~= head + Seq::<u8>::empty());
        }
        while i < N_CFG_KEYS
            invariant
                self.wf(),
                i <= N_CFG_KEYS,
                written_keys@.dom() == written,
                head + rest_text(self@, written, 0) == out_content@ + rest_text(
                    self@,
                    written,
                    i as nat,
                ),
            decreases N_CFG_KEYS - i,
        {
            let ghost before = out_content@;
            if !map_contains(&written_keys, i) {
                if let Some(k) = CfgKey::from_index(i) {
                    let val = self.get(k);
                    push_entry(&mut out_content, k, val);
                    out_content.push(NEWLINE);
                }
            }
            proof {
                assert(before + rest_text(self@, written, i as nat) =~= out_content@ + rest_text(
                    self@,
                    written,
                    (i + 1) as nat,
                ));
            }
            i += 1;
        }
        proof {
            assert(out_content@ + rest_text(self@, written, N_CFG_KEYS as nat) =~= out_content@);
        }
        out_content
    }
}

/// Whether `b` stands nowhere in `s`.
pub open spec fn lacks(s: Seq<u8>, b: u8) -> bool {
    forall|i: int| 0 <= i < s.len() ==> s[i] != b
}

/// A byte that stands nowhere in a run has its first place after the run.
pub proof fn lemma_lacks(s: Seq<u8>, b: u8)
    requires
        lacks(s, b),
    ensures
        index_of(s, b) == s.len(),
        split_once(s, b) is None,
{
    lemma_index_of_is(s, b, s.len() as int);
}

/// The first `b` after a run that lacks it parts the run from the rest.
pub proof fn lemma_split_after(head: Seq<u8>, b: u8, tail: Seq<u8>)
    requires
        lacks(head, b),
    ensures
        split_once(head + seq![b] + tail, b) == Some((head, tail)),
{
    let s = head + seq![b] + tail;
    assert(s[head.len() as int] == b);
    assert forall|k: int| 0 <= k < head.len() implies s[k] != b by {
        assert(s[k] == head[k]);
    }
    lemma_index_of_is(s, b, head.len() as int);
    assert(s.take(head.len() as int) =~= head);
    assert(s.skip(head.len() as int + 1) =~= tail);
}

/// Dropping the spaces of two runs one after the other drops the spaces of
/// each.
pub proof fn lemma_without_spaces_add(a: Seq<u8>, b: Seq<u8>)
    ensures
        without_spaces(a + b) == without_spaces(a) + without_spaces(b),
    decreases b.len(),
{
    if b.len() == 0 {
        assert(a + b =~= a);
        assert(without_spaces(a) + without_spaces(b) =~= without_spaces(a));
    } else {
        assert((a + b).drop_last() =~= a + b.drop_last());
        assert((a + b).last() == b.last());
        lemma_without_spaces_add(a, b.drop_last());
        if b.last() != SPACE {
            assert((without_spaces(a) + without_spaces(b.drop_last())).push(b.last())
                =~= without_spaces(a) + without_spaces(b.drop_last()).push(b.last()));
        }
    }
}

/// A run without spaces stays as it is.
pub proof fn lemma_without_spaces_same(s: Seq<u8>)
    requires
        lacks(s, SPACE),
    ensures
        without_spaces(s) == s,
    decreases s.len(),
{
    if s.len() > 0 {
        assert forall|i: int| 0 <= i < s.drop_last().len() implies s.drop_last()[i] != SPACE by {
            assert(s.drop_last()[i] == s[i]);
        }
        lemma_without_spaces_same(s.drop_last());
        assert(s.drop_last().push(s.last()) =~= s);
    }
}

/// The digits of a number hold digits only, so none of the marks of a line.
pub proof fn lemma_decimal_plain(v: nat)
    ensures
        decimal(v).len() >= 1,
        is_digit(decimal(v)[0]),
        is_digit(decimal(v).last()),
        lacks(decimal(v), SPACE),
        lacks(decimal(v), HASH),
        lacks(decimal(v), COMMA),
        lacks(decimal(v), EQUALS),
        lacks(decimal(v), NEWLINE),
        unsigned_part(decimal(v)) == decimal(v),
        crate::config::number::all_digits(decimal(v)),
{
    lemma_decimal(v, v);
}

/// Reading the digits of a number up to `max` gives the number.
pub proof fn lemma_parse_decimal(v: nat, max: nat)
    requires
        v <= max,
    ensures
        parse_unsigned(decimal(v), max) == Ok::<nat, NumError>(v),
{
    lemma_decimal(v, max);
    lemma_decimal_plain(v);
}

/// Whether `s` is the text of one number: digits and points, and at least
/// one of them.
pub open spec fn is_part(s: Seq<u8>) -> bool {
    s.len() >= 1 && forall|i: int| 0 <= i < s.len() ==> is_digit(#[trigger] s[i]) || s[i] == 46
}

/// Whether `s` holds nothing but digits, points, commas and spaces.
pub open spec fn plain(s: Seq<u8>) -> bool {
    forall|i: int|
        0 <= i < s.len() ==> is_digit(#[trigger] s[i]) || s[i] == 46 || s[i] == COMMA || s[i]
            == SPACE
}

/// The text of one number is one part.
pub proof fn lemma_one_part(a: Seq<u8>)
    requires
        is_part(a),
    ensures
        fields(without_spaces(a)) == seq![a],
        plain(a),
        a.last() != RETURN,
{
    assert(lacks(a, SPACE) && lacks(a, COMMA));
    lemma_without_spaces_same(a);
    lemma_lacks(a, COMMA);
    assert(is_digit(a[a.len() - 1]) || a[a.len() - 1] == 46);
}

/// The text of a number before a comma, a space and more parts is one part
/// more.
pub proof fn lemma_more_parts(a: Seq<u8>, rest: Seq<u8>)
    requires
        is_part(a),
        plain(rest),
        rest.len() >= 1,
    ensures
        fields(without_spaces(a + separator() + rest)) == seq![a] + fields(without_spaces(rest)),
        plain(a + separator() + rest),
        (a + separator() + rest).last() == rest.last(),
{
    let text = a + separator() + rest;
    assert(lacks(a, SPACE) && lacks(a, COMMA));
    lemma_without_spaces_same(a);
    assert(without_spaces(separator()) =~= seq![COMMA]) by {
        assert(separator().drop_last() =~= seq![COMMA]);
        assert(seq![COMMA].drop_last() =~= Seq::<u8>::empty());
        reveal_with_fuel(without_spaces, 3);
    }
    lemma_without_spaces_add(a + separator(), rest);
    lemma_without_spaces_add(a, separator());
    let tail = without_spaces(rest);
    assert(without_spaces(text) =~= a + seq![COMMA] + tail);
    lemma_split_after(a, COMMA, tail);
    assert forall|i: int| 0 <= i < text.len() implies is_digit(#[trigger] text[i]) || text[i] == 46
        || text[i] == COMMA || text[i] == SPACE by {
        if i < a.len() {
            assert(text[i] == a[i]);
        } else if i < a.len() + 2 {
            assert(text[i] == separator()[i - a.len()]);
        } else {
            assert(text[i] == rest[i - a.len() - 2]);
        }
    }
}

/// A text of digits, points, commas and spaces holds none of the marks
/// that part a line, with or without its spaces.
pub proof fn lemma_plain(s: Seq<u8>)
    requires
        plain(s),
    ensures
        lacks(s, HASH),
        lacks(s, EQUALS),
        lacks(s, NEWLINE),
        lacks(without_spaces(s), EQUALS),
{
    assert(lacks(s, EQUALS));
    lemma_without_spaces_keeps(s, EQUALS);
}

/// The numbers of a first part and of the parts after it are the numbers
/// of all parts.
pub proof fn lemma_read_numbers_first(
    a: Seq<u8>,
    rest: Seq<Seq<u8>>,
    fraction: bool,
    max: u32,
    x: u32,
    v: Seq<u32>,
)
    requires
        read_number(a, fraction, max) == Ok::<u32, NumError>(x),
        read_numbers(rest, fraction, max) == Ok::<Seq<u32>, NumError>(v),
    ensures
        read_numbers(seq![a] + rest, fraction, max) == Ok::<Seq<u32>, NumError>(seq![x] + v),
    decreases rest.len(),
{
    let all = seq![a] + rest;
    if rest.len() == 0 {
        assert(all =~= seq![a]);
        assert(seq![a].drop_last() =~= Seq::<Seq<u8>>::empty());
        assert(seq![x] + v =~= Seq::<u32>::empty().push(x));
        reveal_with_fuel(read_numbers, 2);
    } else {
        let front = read_numbers(rest.drop_last(), fraction, max).unwrap();
        let y = read_number(rest.last(), fraction, max).unwrap();
        assert(v == front.push(y));
        lemma_read_numbers_first(a, rest.drop_last(), fraction, max, x, front);
        assert(all.drop_last() =~= seq![a] + rest.drop_last());
        assert(all.last() == rest.last());
        assert((seq![x] + front).push(y) =~= seq![x] + v);
    }
}

/// The digits of a number are one part that reads as the number.
pub proof fn lemma_decimal_part(v: u32, max: u32)
    requires
        v <= max,
    ensures
        is_part(decimal(v as nat)),
        read_number(decimal(v as nat), false, max) == Ok::<u32, NumError>(v),
{
    lemma_decimal_plain(v as nat);
    lemma_parse_decimal(v as nat, max as nat);
}

/// The text of a number of thousandths is one part that reads as the
/// number.
pub proof fn lemma_thousandths_part(v: u32)
    ensures
        is_part(thousandths(v as nat)),
        read_number(thousandths(v as nat), true, u32::MAX) == Ok::<u32, NumError>(v),
{
    lemma_thousandths(v as nat, u32::MAX as nat);
}

/// Whether `v` is a value that `key` can have: of the kind of the default of
/// `key` and inside its own bounds.
pub open spec fn writable(key: CfgKey, v: ValType) -> bool {
    v.same_kind(key.default_spec()) && v.in_bounds()
}

/// Three parts, written one after the other, read as the three.
pub proof fn lemma_three_parts(a: Seq<u8>, b: Seq<u8>, c: Seq<u8>)
    requires
        is_part(a),
        is_part(b),
        is_part(c),
    ensures
        fields(without_spaces(a + separator() + b + separator() + c)) == seq![a, b, c],
        plain(a + separator() + b + separator() + c),
        (a + separator() + b + separator() + c).last() != RETURN,
{
    lemma_one_part(c);
    lemma_more_parts(b, c);
    lemma_more_parts(a, b + separator() + c);
    assert(a + separator() + b + separator() + c =~= a + separator() + (b + separator() + c));
    assert(seq![a] + (seq![b] + seq![c]) =~= seq![a, b, c]);
}

/// Three numbers, written one after the other, read as the three.
pub proof fn lemma_three_numbers(
    parts: (Seq<u8>, Seq<u8>, Seq<u8>),
    fraction: bool,
    max: u32,
    nums: (u32, u32, u32),
)
    requires
        is_part(parts.0),
        is_part(parts.1),
        is_part(parts.2),
        read_number(parts.0, fraction, max) == Ok::<u32, NumError>(nums.0),
        read_number(parts.1, fraction, max) == Ok::<u32, NumError>(nums.1),
        read_number(parts.2, fraction, max) == Ok::<u32, NumError>(nums.2),
    ensures
        read_numbers(
            fields(without_spaces(parts.0 + separator() + parts.1 + separator() + parts.2)),
            fraction,
            max,
        ) == Ok::<Seq<u32>, NumError>(seq![nums.0, nums.1, nums.2]),
        plain(parts.0 + separator() + parts.1 + separator() + parts.2),
        (parts.0 + separator() + parts.1 + separator() + parts.2).last() != RETURN,
{
    let (x, lo, hi) = parts;
    let none = Seq::<Seq<u8>>::empty();
    let nothing = Seq::<u32>::empty();
    lemma_three_parts(x, lo, hi);
    lemma_read_numbers_first(hi, none, fraction, max, nums.2, nothing);
    lemma_read_numbers_first(lo, seq![hi] + none, fraction, max, nums.1, seq![nums.2] + nothing);
    lemma_read_numbers_first(
        x,
        seq![lo] + (seq![hi] + none),
        fraction,
        max,
        nums.0,
        seq![nums.1] + (seq![nums.2] + nothing),
    );
    assert(seq![x] + (seq![lo] + (seq![hi] + none)) =~= seq![x, lo, hi]);
    assert(seq![nums.0] + (seq![nums.1] + (seq![nums.2] + nothing)) =~= seq![
        nums.0,
        nums.1,
        nums.2,
    ]);
}

/// The text of a colour, its spaces dropped, reads as the colour.
pub proof fn lemma_color_text(c: Color<u8>, n: u32)
    ensures
        crate::config::text::parse_color(without_spaces(value_text(ValType::ColorRgb8(c))), n)
            == Ok::<Color<u8>, LineError>(c),
        plain(value_text(ValType::ColorRgb8(c))),
        value_text(ValType::ColorRgb8(c)).len() >= 1,
        value_text(ValType::ColorRgb8(c)).last() != RETURN,
{
    let text = value_text(ValType::ColorRgb8(c));
    let (r, g, bl, al) = (
        decimal(c.r as nat),
        decimal(c.g as nat),
        decimal(c.b as nat),
        decimal(c.a as nat),
    );
    let (cr, cg, cb, ca) = (c.r as u32, c.g as u32, c.b as u32, c.a as u32);
    lemma_decimal_part(cr, 255);
    lemma_decimal_part(cg, 255);
    lemma_decimal_part(cb, 255);
    lemma_decimal_part(ca, 255);
    lemma_three_numbers((g, bl, al), false, 255, (cg, cb, ca));
    let rest = g + separator() + bl + separator() + al;
    lemma_more_parts(r, rest);
    assert(text =~= r + separator() + rest);
    lemma_read_numbers_first(r, fields(without_spaces(rest)), false, 255, cr, seq![cg, cb, ca]);
    let nums = seq![cr] + seq![cg, cb, ca];
    assert(nums.len() == 4 && nums[0] == cr && nums[1] == cg && nums[2] == cb && nums[3] == ca);
}

/// The text of a value holds none of the marks that part a line, does not
/// end in a carriage return, and reads as the value once its spaces are
/// dropped.
pub proof fn lemma_value_text(key: CfgKey, v: ValType, n: u32)
    requires
        writable(key, v),
    ensures
        parse_value(key, without_spaces(value_text(v)), n) == Ok::<ValType, LineError>(v),
        lacks(value_text(v), HASH),
        lacks(value_text(v), EQUALS),
        lacks(value_text(v), NEWLINE),
        lacks(without_spaces(value_text(v)), EQUALS),
        value_text(v).len() >= 1,
        value_text(v).last() != RETURN,
{
    let text = value_text(v);
    match v {
        ValType::Keycode(k) => {
            lemma_decimal_plain(k as nat);
            lemma_without_spaces_same(text);
            lemma_parse_decimal(k as nat, 0xFFFF);
            lemma_without_spaces_keeps(text, EQUALS);
        },
        ValType::Unsigned(b) => {
            lemma_decimal_part(b.val, u32::MAX);
            lemma_decimal_part(b.min, u32::MAX);
            lemma_decimal_part(b.max, u32::MAX);
            lemma_three_numbers(
                (decimal(b.val as nat), decimal(b.min as nat), decimal(b.max as nat)),
                false,
                u32::MAX,
                (b.val, b.min, b.max),
            );
            lemma_plain(text);
        },
        ValType::Decimal(b) => {
            lemma_thousandths_part(b.val);
            lemma_thousandths_part(b.min);
            lemma_thousandths_part(b.max);
            lemma_three_numbers(
                (thousandths(b.val as nat), thousandths(b.min as nat), thousandths(b.max as nat)),
                true,
                u32::MAX,
                (b.val, b.min, b.max),
            );
            lemma_plain(text);
        },
        ValType::ColorRgb8(c) => {
            lemma_color_text(c, n);
            lemma_plain(text);
        },
    }
}

/// Dropping spaces brings in no byte that was not there.
pub proof fn lemma_without_spaces_keeps(s: Seq<u8>, b: u8)
    requires
        lacks(s, b),
    ensures
        lacks(without_spaces(s), b),
    decreases s.len(),
{
    if s.len() > 0 {
        assert forall|i: int| 0 <= i < s.drop_last().len() implies s.drop_last()[i] != b by {
            assert(s.drop_last()[i] == s[i]);
        }
        lemma_without_spaces_keeps(s.drop_last(), b);
        assert(s.last() == s[s.len() - 1]);
    }
}

/// The line of a key, its spaces dropped, reads as the key with its value;
/// the line holds neither a `#` nor a line feed and does not end in a
/// carriage return.
pub proof fn lemma_entry_pair(key: CfgKey, v: ValType, n: u32)
    requires
        writable(key, v),
    ensures
        parse_pair(without_spaces(entry_text(key, v)), n) == Ok::<
            Option<(CfgKey, ValType)>,
            LineError,
        >(Some((key, v))),
        lacks(entry_text(key, v), NEWLINE),
        lacks(entry_text(key, v), HASH),
        entry_text(key, v).len() >= 1,
        entry_text(key, v).last() != RETURN,
{
    let name = key.name_bytes();
    let mid = seq![SPACE, EQUALS, SPACE];
    let value = value_text(v);
    let entry = entry_text(key, v);
    lemma_name_bytes(key);
    lemma_value_text(key, v, n);
    assert forall|i: int| 0 <= i < entry.len() implies entry[i] != HASH && entry[i] != NEWLINE by {
        if i < name.len() {
            assert(entry[i] == name[i]);
            assert(is_name_byte(name[i]));
        } else if i < name.len() + 3 {
            assert(entry[i] == mid[i - name.len()]);
        } else {
            assert(entry[i] == value[i - name.len() - 3]);
        }
    }
    assert(entry.last() == value.last());
    assert(lacks(name, SPACE) && lacks(name, EQUALS)) by {
        assert forall|i: int| 0 <= i < name.len() implies name[i] != SPACE && name[i] != EQUALS by {
            assert(is_name_byte(name[i]));
        }
    }
    lemma_without_spaces_same(name);
    assert(without_spaces(mid) =~= seq![EQUALS]) by {
        assert(mid.drop_last() =~= seq![SPACE, EQUALS]);
        assert(seq![SPACE, EQUALS].drop_last() =~= seq![SPACE]);
        assert(seq![SPACE].drop_last() =~= Seq::<u8>::empty());
        reveal_with_fuel(without_spaces, 4);
    }
    lemma_without_spaces_add(name + mid, value);
    lemma_without_spaces_add(name, mid);
    let plain = name + seq![EQUALS] + without_spaces(value);
    assert(without_spaces(entry) =~= plain);
    lemma_split_after(name, EQUALS, without_spaces(value));
    lemma_key_named(key);
}

/// The line of a key reads as the key with its value and no comment.
pub proof fn lemma_entry_text(key: CfgKey, v: ValType, n: u32)
    requires
        writable(key, v),
    ensures
        parse_line_spec(entry_text(key, v), n) == Ok::<Line, LineError>(
            Line { pair: Some((key, v)), comment: None },
        ),
{
    lemma_entry_pair(key, v, n);
    lemma_lacks(entry_text(key, v), HASH);
}

/// A line that holds no line feed and does not end in a carriage return is
/// the first line of whatever text it starts, up to the line feed after it.
pub proof fn lemma_first_line(line: Seq<u8>, rest: Seq<u8>)
    requires
        lacks(line, NEWLINE),
        line.len() == 0 || line.last() != RETURN,
    ensures
        first_line(line + seq![NEWLINE] + rest) == line,
        after_first_line(line + seq![NEWLINE] + rest) == rest,
{
    let text = line + seq![NEWLINE] + rest;
    assert(text[line.len() as int] == NEWLINE);
    assert forall|k: int| 0 <= k < line.len() implies text[k] != NEWLINE by {
        assert(text[k] == line[k]);
    }
    lemma_index_of_is(text, NEWLINE, line.len() as int);
    assert(text.take(line.len() as int) =~= line);
    assert(text.skip(line.len() as int + 1) =~= rest);
}

/// What was read holds, for just the keys in `written`, the values that
/// `m` has for them.
pub open spec fn reads_as(acc: Map<usize, ValType>, written: Set<usize>, m: Map<CfgKey, ValType>) -> bool {
    &&& forall|i: usize| #[trigger] acc.contains_key(i) <==> written.contains(i)
    &&& forall|i: usize| #[trigger]
        acc.contains_key(i) ==> i < N_CFG_KEYS && acc[i] == m[CfgKey::at(i as int)]
}

/// What was read holds values of `m` only, each under the place of its key.
pub open spec fn holds_values(acc: Map<usize, ValType>, m: Map<CfgKey, ValType>) -> bool {
    forall|i: usize| #[trigger]
        acc.contains_key(i) ==> i < N_CFG_KEYS && acc[i] == m[CfgKey::at(i as int)]
}

/// What was read holds, for every key from the first up to place `upto`,
/// the value that `m` has for it.
pub open spec fn covers(acc: Map<usize, ValType>, m: Map<CfgKey, ValType>, upto: nat) -> bool {
    forall|i: usize| i < upto ==> #[trigger] acc.contains_key(i) && acc[i] == m[CfgKey::at(i as int)]
}

/// Reading the lines of the keys that stood on no line before adds the value
/// of each of them to what was read before: in the end every key is read,
/// with the value that `m` has for it.
pub proof fn lemma_read_rest(
    m: Map<CfgKey, ValType>,
    written: Set<usize>,
    from: nat,
    n: nat,
    acc: Map<usize, ValType>,
)
    requires
        complete(m),
        from <= N_CFG_KEYS,
        forall|i: usize| #[trigger] written.contains(i) ==> acc.contains_key(i),
        holds_values(acc, m),
        covers(acc, m, from),
    ensures
        read_text(rest_text(m, written, from), n, acc) is Ok,
        covers(read_text(rest_text(m, written, from), n, acc).unwrap(), m, N_CFG_KEYS as nat),
    decreases N_CFG_KEYS - from,
{
    let text = rest_text(m, written, from);
    if from >= N_CFG_KEYS {
        assert(text.len() == 0);
    } else if written.contains(from as usize) {
        assert(acc.contains_key(from as usize));
        assert(covers(acc, m, from + 1));
        lemma_read_rest(m, written, from + 1, n, acc);
    } else {
        let key = CfgKey::at(from as int);
        let entry = entry_text(key, m[key]);
        let rest = rest_text(m, written, from + 1);
        assert(text == entry + seq![NEWLINE] + rest);
        assert(writable(key, m[key]));
        lemma_entry_pair(key, m[key], n as u32);
        lemma_entry_text(key, m[key], n as u32);
        lemma_first_line(entry, rest);
        let next = acc.insert(key.index(), m[key]);
        assert(key.index() == from);
        assert(holds_values(next, m));
        assert forall|i: usize| i < from + 1 implies #[trigger] next.contains_key(i) && next[i]
            == m[CfgKey::at(i as int)] by {
            if i < from {
                assert(acc.contains_key(i));
            }
        }
        assert(read_text(text, n, acc) == read_text(rest, n + 1, next));
        assert(covers(next, m, from + 1));
        lemma_read_rest(m, written, from + 1, n + 1, next);
    }
}

/// Whether the reading of `text` gives the configuration `m` whole.
pub open spec fn reads_back(text: Seq<u8>, m: Map<CfgKey, ValType>) -> bool {
    let read = read_text(text, 1, Map::empty());
    &&& read is Ok
    &&& missing_from(read.unwrap(), 0).len() == 0
    &&& with_defaults(read.unwrap()) == m
}

/// Where every key was read with the value that `m` has for it, the
/// configuration read is `m`.
pub proof fn lemma_all_read(m: Map<CfgKey, ValType>, acc: Map<usize, ValType>)
    requires
        complete(m),
        covers(acc, m, N_CFG_KEYS as nat),
    ensures
        missing_from(acc, 0).len() == 0,
        with_defaults(acc) == m,
{
    assert forall|i: usize| 0 <= i < N_CFG_KEYS implies acc.contains_key(i) by {}
    lemma_none_missing(acc, 0);
    assert(with_defaults(acc) =~= m) by {
        assert forall|k: CfgKey| #[trigger] with_defaults(acc)[k] == m[k] by {
            crate::config::lemma_key_index(k);
            assert(acc.contains_key(k.index()));
        }
        assert forall|k: CfgKey| m.dom().contains(k) by {
            assert(m.dom().contains(k) && m[k].in_bounds());
        }
    }
}

/// Writing a configuration and reading the text back gives the same
/// configuration: every key with the value and the bounds that it had,
/// whatever the file held before.
pub proof fn lemma_round_trip(m: Map<CfgKey, ValType>, existing: Option<Seq<u8>>)
    requires
        complete(m),
    ensures
        reads_back(rendered(m, existing), m),
{
    let none = Map::<usize, ValType>::empty();
    match existing {
        None => {
            lemma_read_rest(m, Set::empty(), 0, 1, none);
            lemma_all_read(m, read_text(rendered(m, existing), 1, none).unwrap());
        },
        Some(text) => {
            let (out, written) = rewrite(text, 1, m, Seq::empty(), Set::empty());
            let tail = rest_text(m, written, 0);
            lemma_rewrite_reads(text, 1, m, Set::empty(), none, 1, tail);
            let (n3, acc) = choose|n3: nat, acc: Map<usize, ValType>|
                read_text(out + tail, 1, none) == read_text(tail, n3, acc) && reads_as(
                    acc,
                    written,
                    m,
                );
            assert(holds_values(acc, m));
            lemma_read_rest(m, written, 0, n3, acc);
            lemma_all_read(m, read_text(tail, n3, acc).unwrap());
        },
    }
}

/// The first line of a text holds no line feed.
pub proof fn lemma_first_line_plain(text: Seq<u8>)
    ensures
        lacks(first_line(text), NEWLINE),
{
    lemma_index_of(text, NEWLINE);
    let i = index_of(text, NEWLINE);
    if i < text.len() {
        let line = text.take(i);
        assert forall|j: int| 0 <= j < chomp(line).len() implies chomp(line)[j] != NEWLINE by {
            assert(chomp(line)[j] == text[j]);
        }
    } else {
        assert forall|j: int| 0 <= j < text.len() implies text[j] != NEWLINE by {}
    }
}

/// A line that was read and is written again reads as it did, but for the
/// value of its key, which is the one that `m` has: whatever text follows
/// the line, the line is the first line of it and what follows is the rest.
pub proof fn lemma_rewritten_line(
    old_line: Seq<u8>,
    n: u32,
    m: Map<CfgKey, ValType>,
    n2: u32,
    tail: Seq<u8>,
)
    requires
        complete(m),
        lacks(old_line, NEWLINE),
        parse_line_spec(old_line, n) is Ok,
    ensures
        ({
            let line = parse_line_spec(old_line, n).unwrap();
            let text = rewritten_line(line, m) + tail;
            &&& after_first_line(text) == tail
            &&& text.len() > 0
            &&& parse_line_spec(first_line(text), n2) is Ok
            &&& parse_line_spec(first_line(text), n2).unwrap().pair == match line.pair {
                Some((k, _)) => Some((k, m[k])),
                None => None,
            }
        }),
{
    let line = parse_line_spec(old_line, n).unwrap();
    let written = rewritten_line(line, m);
    let text = written + tail;
    let content = written.drop_last();
    assert(written.last() == NEWLINE);
    assert(written =~= content + seq![NEWLINE]);
    assert(text =~= content + seq![NEWLINE] + tail);
    // the comment is part of the old line and so holds no line feed
    lemma_index_of(old_line, HASH);
    let comment_plain = line.comment matches Some(c) ==> lacks(c, NEWLINE);
    assert(comment_plain) by {
        if let Some(c) = line.comment {
            let i = index_of(old_line, HASH);
            assert(c == old_line.skip(i + 1));
            assert forall|j: int| 0 <= j < c.len() implies c[j] != NEWLINE by {
                assert(c[j] == old_line[i + 1 + j]);
            }
        }
    }
    let empty = Seq::<u8>::empty();
    match line.pair {
        None => {
            match line.comment {
                None => {
                    assert(content =~= empty);
                    lemma_index_of_is(text, NEWLINE, 0);
                    assert(text.take(0) =~= empty);
                    assert(text.skip(1) =~= tail);
                    lemma_lacks(empty, HASH);
                    lemma_without_spaces_same(empty);
                    lemma_lacks(empty, EQUALS);
                },
                Some(c) => {
                    assert(content =~= seq![HASH] + c);
                    lemma_line_then(content, tail);
                    let shown = chomp(content);
                    assert(shown[0] == HASH);
                    lemma_index_of_is(shown, HASH, 0);
                    assert(shown.take(0) =~= empty);
                    lemma_without_spaces_same(empty);
                    lemma_lacks(empty, EQUALS);
                },
            }
        },
        Some((k, _)) => {
            let entry = entry_text(k, m[k]);
            assert(writable(k, m[k]));
            lemma_entry_pair(k, m[k], n2);
            match line.comment {
                None => {
                    assert(content =~= entry);
                    lemma_line_then(content, tail);
                    lemma_lacks(entry, HASH);
                },
                Some(c) => {
                    assert(content =~= entry + seq![SPACE] + seq![HASH] + c);
                    assert forall|j: int| 0 <= j < content.len() implies content[j] != NEWLINE by {
                        if j < entry.len() {
                            assert(content[j] == entry[j]);
                        } else if j >= entry.len() + 2 {
                            assert(content[j] == c[j - entry.len() - 2]);
                        }
                    }
                    lemma_line_then(content, tail);
                    let shown = chomp(content);
                    let body = entry + seq![SPACE];
                    assert(shown.len() >= body.len() + 1);
                    assert(shown[body.len() as int] == HASH);
                    assert forall|j: int| 0 <= j < body.len() implies shown[j] != HASH by {
                        if j < entry.len() {
                            assert(shown[j] == entry[j]);
                        }
                    }
                    lemma_index_of_is(shown, HASH, body.len() as int);
                    assert(shown.take(body.len() as int) =~= body);
                    lemma_without_spaces_add(entry, seq![SPACE]);
                    assert(without_spaces(seq![SPACE]) =~= empty) by {
                        assert(seq![SPACE].drop_last() =~= empty);
                        reveal_with_fuel(without_spaces, 2);
                    }
                    assert(without_spaces(body) =~= without_spaces(entry));
                },
            }
        },
    }
}

/// A line without a line feed is, up to a carriage return at its end, the
/// first line of whatever text it starts, and what follows its line feed is
/// the rest.
pub proof fn lemma_line_then(content: Seq<u8>, tail: Seq<u8>)
    requires
        lacks(content, NEWLINE),
    ensures
        first_line(content + seq![NEWLINE] + tail) == chomp(content),
        after_first_line(content + seq![NEWLINE] + tail) == tail,
{
    let text = content + seq![NEWLINE] + tail;
    assert(text[content.len() as int] == NEWLINE);
    assert forall|k: int| 0 <= k < content.len() implies text[k] != NEWLINE by {
        assert(text[k] == content[k]);
    }
    lemma_index_of_is(text, NEWLINE, content.len() as int);
    assert(text.take(content.len() as int) =~= content);
    assert(text.skip(content.len() as int + 1) =~= tail);
}

/// Writing over a text adds to what was written before and does not look at
/// it.
pub proof fn lemma_rewrite_appends(
    text: Seq<u8>,
    n: nat,
    m: Map<CfgKey, ValType>,
    out: Seq<u8>,
    written: Set<usize>,
)
    ensures
        rewrite(text, n, m, out, written).0 == out + rewrite(
            text,
            n,
            m,
            Seq::empty(),
            written,
        ).0,
        rewrite(text, n, m, out, written).1 == rewrite(text, n, m, Seq::empty(), written).1,
    decreases text.len(),
{
    let empty = Seq::<u8>::empty();
    if text.len() == 0 {
        assert(out + empty =~= out);
    } else {
        lemma_index_of(text, NEWLINE);
        let rest = after_first_line(text);
        match parse_line_spec(first_line(text), n as u32) {
            Err(_) => {
                lemma_rewrite_appends(rest, n + 1, m, out, written);
            },
            Ok(line) => {
                let next = match line.pair {
                    Some((k, _)) => written.insert(k.index()),
                    None => written,
                };
                let add = rewritten_line(line, m);
                lemma_rewrite_appends(rest, n + 1, m, out + add, next);
                lemma_rewrite_appends(rest, n + 1, m, empty + add, next);
                let more = rewrite(rest, n + 1, m, empty, next).0;
                assert((out + add) + more =~= out + ((empty + add) + more));
            },
        }
    }
}

/// Reading what writing over `text` gives, and then whatever follows, comes
/// to reading what follows on top of the values that `m` has for the keys
/// that were written.
pub proof fn lemma_rewrite_reads(
    text: Seq<u8>,
    n: nat,
    m: Map<CfgKey, ValType>,
    written: Set<usize>,
    acc: Map<usize, ValType>,
    n2: nat,
    tail: Seq<u8>,
)
    requires
        complete(m),
        reads_as(acc, written, m),
    ensures
        exists|n3: nat, acc3: Map<usize, ValType>|
            read_text(rewrite(text, n, m, Seq::empty(), written).0 + tail, n2, acc) == read_text(
                tail,
                n3,
                acc3,
            ) && reads_as(acc3, rewrite(text, n, m, Seq::empty(), written).1, m),
    decreases text.len(),
{
    let empty = Seq::<u8>::empty();
    let (out, done) = rewrite(text, n, m, empty, written);
    if text.len() == 0 {
        assert(out + tail =~= tail);
        assert(read_text(out + tail, n2, acc) == read_text(tail, n2, acc) && reads_as(
            acc,
            done,
            m,
        ));
    } else {
        lemma_index_of(text, NEWLINE);
        let rest = after_first_line(text);
        match parse_line_spec(first_line(text), n as u32) {
            Err(_) => {
                lemma_rewrite_reads(rest, n + 1, m, written, acc, n2, tail);
            },
            Ok(line) => {
                let next = match line.pair {
                    Some((k, _)) => written.insert(k.index()),
                    None => written,
                };
                let add = rewritten_line(line, m);
                lemma_rewrite_appends(rest, n + 1, m, empty + add, next);
                let more = rewrite(rest, n + 1, m, empty, next).0;
                assert(out =~= add + more);
                assert(out + tail =~= add + (more + tail));
                lemma_first_line_plain(text);
                lemma_rewritten_line(first_line(text), n as u32, m, n2 as u32, more + tail);
                let acc1 = match line.pair {
                    Some((k, _)) => acc.insert(k.index(), m[k]),
                    None => acc,
                };
                assert(reads_as(acc1, next, m)) by {
                    if let Some((k, _)) = line.pair {
                        crate::config::lemma_key_index(k);
                    }
                }
                assert(read_text(out + tail, n2, acc) == read_text(more + tail, n2 + 1, acc1));
                lemma_rewrite_reads(rest, n + 1, m, next, acc1, n2 + 1, tail);
            },
        }
    }
}

/// Where every key from place `from` on has a value, none is missing.
pub proof fn lemma_none_missing(acc: Map<usize, ValType>, from: nat)
    requires
        forall|i: usize| from <= i < N_CFG_KEYS ==> acc.contains_key(i),
    ensures
        missing_from(acc, from).len() == 0,
    decreases N_CFG_KEYS - from,
{
    if from < N_CFG_KEYS {
        assert(acc.contains_key(from as usize));
        lemma_none_missing(acc, from + 1);
    }
}

} // verus!
