//! Numbers as text: whole numbers in decimal digits, and fractions held in
//! thousandths, written with up to three digits after a point and read from
//! as many as there are, rounded to the nearest thousandth.

use vstd::prelude::*;

verus! {

/// Why a run of bytes is no number.
#[derive(Debug, Clone, Copy, PartialEq, Eq, Structural)]
pub enum NumError {
    /// There is nothing to read.
    Empty,
    /// A byte is no digit where a digit must stand, or there are no digits.
    InvalidDigit,
    /// The number is greater than the greatest that is taken.
    TooLarge,
}

/// Whether `b` is one of the ten digits.
pub open spec fn is_digit(b: u8) -> bool {
    48 <= b <= 57
}

/// Whether `s` holds digits only.
pub open spec fn all_digits(s: Seq<u8>) -> bool {
    forall|i: int| 0 <= i < s.len() ==> is_digit(#[trigger] s[i])
}

/// The decimal digits of `v`, without leading zeros; one zero for nought.
pub open spec fn decimal(v: nat) -> Seq<u8>
    decreases v,
{
    if v < 10 {
        seq![(48 + v) as u8]
    } else {
        decimal(v / 10).push((48 + v % 10) as u8)
    }
}

/// Reads the digits of `s` from the left on top of `acc`: a byte that is no
/// digit ends the reading, and so does a number that grows beyond `max`,
/// whichever comes first.
pub open spec fn scan(s: Seq<u8>, acc: nat, max: nat) -> Result<nat, NumError>
    decreases s.len(),
{
    if s.len() == 0 {
        Ok(acc)
    } else if !is_digit(s[0]) {
        Err(NumError::InvalidDigit)
    } else {
        let next = acc * 10 + (s[0] - 48) as nat;
        if next > max {
            Err(NumError::TooLarge)
        } else {
            scan(s.drop_first(), next, max)
        }
    }
}

/// `s` without a plus sign in front.
pub open spec fn unsigned_part(s: Seq<u8>) -> Seq<u8> {
    if s.len() > 0 && s[0] == 43 {
        s.drop_first()
    } else {
        s
    }
}

/// The whole number up to `max` that `s` writes: digits, with or without a
/// plus sign in front.
pub open spec fn parse_unsigned(s: Seq<u8>, max: nat) -> Result<nat, NumError> {
    if s.len() == 0 {
        Err(NumError::Empty)
    } else if unsigned_part(s).len() == 0 {
        Err(NumError::InvalidDigit)
    } else {
        scan(unsigned_part(s), 0, max)
    }
}

/// The first place in `s` at which `b` stands; the length of `s` if it
/// stands nowhere.
pub open spec fn index_of(s: Seq<u8>, b: u8) -> int
    decreases s.len(),
{
    if s.len() == 0 {
        0
    } else if s[0] == b {
        0
    } else {
        1 + index_of(s.drop_first(), b)
    }
}

/// What stands before and what after the first `b` in `s`, if there is one.
pub open spec fn split_once(s: Seq<u8>, b: u8) -> Option<(Seq<u8>, Seq<u8>)> {
    let i = index_of(s, b);
    if i < s.len() {
        Some((s.take(i), s.skip(i + 1)))
    } else {
        None
    }
}

/// `s` with noughts after it up to a length of three.
pub open spec fn padded(s: Seq<u8>) -> Seq<u8> {
    if s.len() == 0 {
        seq![48u8, 48u8, 48u8]
    } else if s.len() == 1 {
        s + seq![48u8, 48u8]
    } else if s.len() == 2 {
        s + seq![48u8]
    } else {
        s
    }
}

/// The first three of the digits after a point, or as many as there are.
pub open spec fn first_three(frac: Seq<u8>) -> Seq<u8> {
    if frac.len() > 3 {
        frac.take(3)
    } else {
        frac
    }
}

/// What follows the third digit after a point.
pub open spec fn beyond_three(frac: Seq<u8>) -> Seq<u8> {
    if frac.len() > 3 {
        frac.skip(3)
    } else {
        Seq::empty()
    }
}

/// Whether the digits after the third round the thousandths up: the fourth
/// digit is five or more.
pub open spec fn rounds_up(frac: Seq<u8>) -> bool {
    frac.len() > 3 && frac[3] >= 53
}

/// The number of thousandths up to `max` that `s` writes: digits, a point
/// and more digits, of which either side may be missing but not both; with
/// or without a plus sign in front. Digits after the third round the number
/// to the nearest thousandth, a half upwards.
pub open spec fn parse_thousandths(s: Seq<u8>, max: nat) -> Result<nat, NumError> {
    if s.len() == 0 {
        Err(NumError::Empty)
    } else {
        let d = unsigned_part(s);
        let (whole, frac) = match split_once(d, 46) {
            Some((whole, frac)) => (whole, frac),
            None => (d, Seq::<u8>::empty()),
        };
        if whole.len() + frac.len() == 0 {
            Err(NumError::InvalidDigit)
        } else {
            match scan(whole, 0, max) {
                Err(e) => Err(e),
                Ok(w) => match scan(padded(first_three(frac)), 0, 999) {
                    Err(e) => Err(e),
                    Ok(f) => {
                        let total = w * 1000 + f + if rounds_up(frac) {
                            1nat
                        } else {
                            0nat
                        };
                        if !all_digits(beyond_three(frac)) {
                            Err(NumError::InvalidDigit)
                        } else if total > max {
                            Err(NumError::TooLarge)
                        } else {
                            Ok(total)
                        }
                    },
                },
            }
        }
    }
}

/// The digits after the point for `f` thousandths, without noughts at the
/// end; none for nought.
pub open spec fn fraction_digits(f: nat) -> Seq<u8> {
    if f % 1000 == 0 {
        Seq::<u8>::empty()
    } else if f % 100 == 0 {
        seq![(48 + (f / 100) % 10) as u8]
    } else if f % 10 == 0 {
        seq![(48 + (f / 100) % 10) as u8, (48 + (f / 10) % 10) as u8]
    } else {
        seq![(48 + (f / 100) % 10) as u8, (48 + (f / 10) % 10) as u8, (48 + f % 10) as u8]
    }
}

/// `v` thousandths as text: the whole part, and after a point what is left,
/// where anything is.
pub open spec fn thousandths(v: nat) -> Seq<u8> {
    if v % 1000 == 0 {
        decimal(v / 1000)
    } else {
        decimal(v / 1000) + seq![46u8] + fraction_digits(v % 1000)
    }
}

/// The first place of a byte is inside the run or right after it, nothing
/// before it is that byte, and the byte stands there if anything does.
pub proof fn lemma_index_of(s: Seq<u8>, b: u8)
    ensures
        0 <= index_of(s, b) <= s.len(),
        forall|i: int| 0 <= i < index_of(s, b) ==> s[i] != b,
        index_of(s, b) < s.len() ==> s[index_of(s, b)] == b,
    decreases s.len(),
{
    if s.len() > 0 && s[0] != b {
        let rest = s.drop_first();
        lemma_index_of(rest, b);
        assert forall|i: int| 0 <= i < index_of(s, b) implies s[i] != b by {
            if i > 0 {
                assert(s[i] == rest[i - 1]);
            }
        }
    }
}

/// The first place of a byte is where it stands with nothing like it before.
pub proof fn lemma_index_of_is(s: Seq<u8>, b: u8, i: int)
    requires
        0 <= i <= s.len(),
        forall|k: int| 0 <= k < i ==> s[k] != b,
        i < s.len() ==> s[i] == b,
    ensures
        index_of(s, b) == i,
{
    lemma_index_of(s, b);
    let j = index_of(s, b);
    if j < i {
        assert(s[j] != b);
    }
}

/// Reading goes digit by digit: one more byte at the end is read on top of
/// what the bytes before it gave.
pub proof fn lemma_scan_push(s: Seq<u8>, d: u8, acc: nat, max: nat)
    ensures
        scan(s.push(d), acc, max) == match scan(s, acc, max) {
            Err(e) => Err(e),
            Ok(a) => if !is_digit(d) {
                Err(NumError::InvalidDigit)
            } else if a * 10 + (d - 48) as nat > max {
                Err(NumError::TooLarge)
            } else {
                Ok(a * 10 + (d - 48) as nat)
            },
        },
    decreases s.len(),
{
    if s.len() == 0 {
        assert(s.push(d).drop_first() =~= Seq::<u8>::empty());
        assert(s.push(d)[0] == d);
        reveal_with_fuel(scan, 2);
    } else {
        assert(s.push(d)[0] == s[0]);
        assert(s.push(d).drop_first() =~= s.drop_first().push(d));
        if is_digit(s[0]) {
            let next = acc * 10 + (s[0] - 48) as nat;
            if next <= max {
                lemma_scan_push(s.drop_first(), d, next, max);
            }
        }
    }
}

/// The digits of a number are digits, and reading them gives the number
/// back.
pub proof fn lemma_decimal(v: nat, max: nat)
    ensures
        decimal(v).len() >= 1,
        all_digits(decimal(v)),
        v <= max ==> scan(decimal(v), 0, max) == Ok::<nat, NumError>(v),
        v <= u32::MAX ==> decimal(v).len() <= 10,
    decreases v,
{
    if v < 10 {
        let s = decimal(v);
        assert(s.drop_first() =~= Seq::<u8>::empty());
        reveal_with_fuel(scan, 2);
    } else {
        lemma_decimal(v / 10, max);
        let d = (48 + v % 10) as u8;
        lemma_scan_push(decimal(v / 10), d, 0, max);
        assert(v / 10 * 10 + v % 10 == v);
        if v <= u32::MAX {
            lemma_decimal_len(v);
        }
    }
}

/// A number below a power of ten has no more digits than the power has
/// noughts.
pub proof fn lemma_decimal_len(v: nat)
    ensures
        v < 10 ==> decimal(v).len() == 1,
        v < 100 ==> decimal(v).len() <= 2,
        v < 1000 ==> decimal(v).len() <= 3,
        v < 10_000 ==> decimal(v).len() <= 4,
        v < 100_000 ==> decimal(v).len() <= 5,
        v < 1_000_000 ==> decimal(v).len() <= 6,
        v < 10_000_000 ==> decimal(v).len() <= 7,
        v < 100_000_000 ==> decimal(v).len() <= 8,
        v < 1_000_000_000 ==> decimal(v).len() <= 9,
        v < 10_000_000_000 ==> decimal(v).len() <= 10,
    decreases v,
{
    if v >= 10 {
        lemma_decimal_len(v / 10);
    }
}

/// Reading a number of thousandths that was written gives the number back.
pub proof fn lemma_thousandths(v: nat, max: nat)
    requires
        v <= max,
    ensures
        parse_thousandths(thousandths(v), max) == Ok::<nat, NumError>(v),
        forall|i: int|
            0 <= i < thousandths(v).len() ==> is_digit(#[trigger] thousandths(v)[i]) || thousandths(
                v,
            )[i] == 46,
        thousandths(v).len() >= 1,
{
    let s = thousandths(v);
    let whole = decimal(v / 1000);
    lemma_decimal(v / 1000, max);
    assert(whole[0] != 43);
    if v % 1000 == 0 {
        assert(s == whole);
        assert(unsigned_part(s) == s);
        lemma_index_of_is(s, 46, s.len() as int);
        assert(padded(first_three(Seq::<u8>::empty())) =~= seq![48u8, 48u8, 48u8]);
        assert(beyond_three(Seq::<u8>::empty()).len() == 0);
        lemma_scan_three(48, 48, 48);
    } else {
        let f = v % 1000;
        let frac = fraction_digits(f);
        assert(s == whole + seq![46u8] + frac);
        assert(s[0] == whole[0]);
        assert(unsigned_part(s) == s);
        assert(s[whole.len() as int] == 46);
        assert forall|k: int| 0 <= k < whole.len() implies s[k] != 46 by {
            assert(s[k] == whole[k]);
        }
        lemma_index_of_is(s, 46, whole.len() as int);
        assert(s.take(whole.len() as int) =~= whole);
        assert(s.skip(whole.len() as int + 1) =~= frac);
        let a = (48 + (f / 100) % 10) as u8;
        let b = (48 + (f / 10) % 10) as u8;
        let c = (48 + f % 10) as u8;
        assert(padded(first_three(frac)) =~= seq![a, b, c]);
        assert(beyond_three(frac).len() == 0);
        lemma_scan_three(a, b, c);
        assert(((f / 100) % 10) * 100 + ((f / 10) % 10) * 10 + f % 10 == f);
        assert(v / 1000 * 1000 + f == v);
        assert forall|i: int| 0 <= i < s.len() implies is_digit(#[trigger] s[i]) || s[i] == 46 by {
            if i < whole.len() {
                assert(s[i] == whole[i]);
            } else if i > whole.len() {
                assert(s[i] == frac[i - whole.len() - 1]);
            }
        }
    }
}

/// Three digits read as their number.
pub proof fn lemma_scan_three(a: u8, b: u8, c: u8)
    requires
        is_digit(a),
        is_digit(b),
        is_digit(c),
    ensures
        scan(seq![a, b, c], 0, 999) == Ok::<nat, NumError>(
            ((a - 48) * 100 + (b - 48) * 10 + (c - 48)) as nat,
        ),
{
    let s = seq![a, b, c];
    assert(s.drop_first() =~= seq![b, c]);
    assert(seq![b, c].drop_first() =~= seq![c]);
    assert(seq![c].drop_first() =~= Seq::<u8>::empty());
    reveal_with_fuel(scan, 4);
}

/// Writes the decimal digits of `v` at the end of `out`.
pub fn push_decimal(out: &mut Vec<u8>, v: u32)
    ensures
        final(out)@ == old(out)@ + decimal(v as nat),
{
    let mut digits: [u8; 10] = [0; 10];
    let mut n: usize = 0;
    let mut rest: u32 = v;
    proof {
        lemma_decimal(v as nat, u32::MAX as nat);
        assert(decimal(v as nat) =~= decimal(v as nat) + Seq::new(0, |k: int| digits@[0 - 1 - k]));
    }
    loop
        invariant_except_break
            n < 10,
            rest <= v,
            decimal(v as nat) == decimal(rest as nat) + Seq::new(
                n as nat,
                |k: int| digits@[n - 1 - k],
            ),
            decimal(rest as nat).len() + n <= 10,
        ensures
            1 <= n <= 10,
            decimal(v as nat) == Seq::new(n as nat, |k: int| digits@[n - 1 - k]),
        decreases rest,
    {
        proof {
            lemma_decimal(rest as nat, u32::MAX as nat);
        }
        let ghost tail = Seq::new(n as nat, |k: int| digits@[n - 1 - k]);
        let d: u8 = 48 + (rest % 10) as u8;
        digits[n] = d;
        n += 1;
        if rest < 10 {
            proof {
                let now = Seq::new(n as nat, |k: int| digits@[n - 1 - k]);
                assert(now =~= seq![d] + tail);
                assert(decimal(rest as nat) =~= seq![d]);
            }
            break ;
        }
        proof {
            let now = Seq::new(n as nat, |k: int| digits@[n - 1 - k]);
            assert(now =~= seq![d] + tail);
            assert(decimal(rest as nat) == decimal((rest / 10) as nat).push(d));
            assert(decimal(rest as nat) + tail =~= decimal((rest / 10) as nat) + now);
            lemma_decimal((rest / 10) as nat, u32::MAX as nat);
        }
        rest = rest / 10;
    }
    let ghost before = out@;
    let mut k: usize = 0;
    while k < n
        invariant
            1 <= n <= 10,
            k <= n,
            out@ == before + Seq::new(k as nat, |j: int| digits@[n - 1 - j]),
        decreases n - k,
    {
        let ghost sofar = out@;
        out.push(digits[n - 1 - k]);
        k += 1;
        assert(out@ =~= before + Seq::new(k as nat, |j: int| digits@[n - 1 - j]));
    }
}

/// Writes `v` thousandths as text at the end of `out`.
pub fn push_thousandths(out: &mut Vec<u8>, v: u32)
    ensures
        final(out)@ == old(out)@ + thousandths(v as nat),
{
    let ghost before = out@;
    push_decimal(out, v / 1000);
    let f: u32 = v % 1000;
    if f != 0 {
        out.push(46);
        out.push(48 + ((f / 100) % 10) as u8);
        if f % 100 != 0 {
            out.push(48 + ((f / 10) % 10) as u8);
            if f % 10 != 0 {
                out.push(48 + (f % 10) as u8);
            }
        }
    }
    proof {
        assert(out@ =~= before + thousandths(v as nat));
    }
}

/// The first place in `s` at which `b` stands; the length of `s` if it
/// stands nowhere.
pub fn find_byte(s: &[u8], b: u8) -> (i: usize)
    ensures
        i == index_of(s@, b),
        i <= s@.len(),
{
    let mut i: usize = 0;
    while i < s.len() && s[i] != b
        invariant
            i <= s@.len(),
            forall|k: int| 0 <= k < i ==> s@[k] != b,
        decreases s@.len() - i,
    {
        i += 1;
    }
    proof {
        lemma_index_of_is(s@, b, i as int);
    }
    i
}

/// Reads the digits of `s` on top of nothing.
fn scan_digits(s: &[u8], max: u32) -> (res: Result<u32, NumError>)
    ensures
        match scan(s@, 0, max as nat) {
            Ok(v) => res == Ok::<u32, NumError>(v as u32) && v <= max,
            Err(e) => res == Err::<u32, NumError>(e),
        },
{
    let mut acc: u64 = 0;
    let mut i: usize = 0;
    proof {
        assert(s@.skip(0) =~= s@);
    }
    while i < s.len()
        invariant
            i <= s@.len(),
            acc <= max,
            scan(s@, 0, max as nat) == scan(s@.skip(i as int), acc as nat, max as nat),
        decreases s@.len() - i,
    {
        let b = s[i];
        proof {
            assert(s@.skip(i as int)[0] == b);
            assert(s@.skip(i as int).drop_first() =~= s@.skip(i + 1));
        }
        if b < 48 || b > 57 {
            return Err(NumError::InvalidDigit);
        }
        let next: u64 = acc * 10 + (b - 48) as u64;
        if next > max as u64 {
            return Err(NumError::TooLarge);
        }
        acc = next;
        i += 1;
    }
    proof {
        assert(s@.skip(s@.len() as int) =~= Seq::<u8>::empty());
    }
    Ok(acc as u32)
}

/// Reads the whole number up to `max` that `s` writes.
pub fn read_unsigned(s: &[u8], max: u32) -> (res: Result<u32, NumError>)
    ensures
        match parse_unsigned(s@, max as nat) {
            Ok(v) => res == Ok::<u32, NumError>(v as u32) && v <= max,
            Err(e) => res == Err::<u32, NumError>(e),
        },
{
    if s.len() == 0 {
        return Err(NumError::Empty);
    }
    let digits = if s[0] == 43 {
        vstd::slice::slice_subrange(s, 1, s.len())
    } else {
        s
    };
    proof {
        assert(s@.drop_first() =~= s@.subrange(1, s@.len() as int));
    }
    if digits.len() == 0 {
        return Err(NumError::InvalidDigit);
    }
    scan_digits(digits, max)
}

/// Reads the number of thousandths up to `max` that `s` writes.
#[verifier::loop_isolation(false)]
pub fn read_thousandths(s: &[u8], max: u32) -> (res: Result<u32, NumError>)
    ensures
        match parse_thousandths(s@, max as nat) {
            Ok(v) => res == Ok::<u32, NumError>(v as u32) && v <= max,
            Err(e) => res == Err::<u32, NumError>(e),
        },
{
    if s.len() == 0 {
        return Err(NumError::Empty);
    }
    let d = if s[0] == 43 {
        vstd::slice::slice_subrange(s, 1, s.len())
    } else {
        s
    };
    proof {
        assert(s@.drop_first() =~= s@.subrange(1, s@.len() as int));
    }
    let dot = find_byte(d, 46);
    let whole = vstd::slice::slice_subrange(d, 0, dot);
    let frac = if dot < d.len() {
        vstd::slice::slice_subrange(d, dot + 1, d.len())
    } else {
        vstd::slice::slice_subrange(d, dot, dot)
    };
    proof {
        assert(d@.take(dot as int) =~= d@.subrange(0, dot as int));
        if dot < d@.len() {
            assert(d@.skip(dot + 1) =~= d@.subrange(dot + 1, d@.len() as int));
        } else {
            assert(whole@ =~= d@);
            assert(frac@ =~= Seq::<u8>::empty());
        }
    }
    if whole.len() + frac.len() == 0 {
        return Err(NumError::InvalidDigit);
    }
    let w = match scan_digits(whole, max) {
        Ok(w) => w,
        Err(e) => {
            return Err(e);
        },
    };
    let mut three: Vec<u8> = Vec::new();
    let mut k: usize = 0;
    while k < 3
        invariant
            k <= 3,
            three@.len() == k,
            forall|j: int|
                0 <= j < k ==> three@[j] == if j < frac@.len() {
                    frac@[j]
                } else {
                    48u8
                },
        decreases 3 - k,
    {
        if k < frac.len() {
            three.push(frac[k]);
        } else {
            three.push(48);
        }
        k += 1;
    }
    proof {
        assert(three@ =~= padded(first_three(frac@)));
    }
    let f = match scan_digits(three.as_slice(), 999) {
        Ok(f) => f,
        Err(e) => {
            return Err(e);
        },
    };
    let mut j: usize = 3;
    while j < frac.len()
        invariant
            3 <= j,
            j <= frac@.len() || frac@.len() < 3,
            forall|i: int| 3 <= i < j ==> is_digit(#[trigger] frac@[i]),
        decreases frac@.len() - j,
    {
        if frac[j] < 48 || frac[j] > 57 {
            proof {
                let rest = beyond_three(frac@);
                assert(rest[j - 3] == frac@[j as int]);
                assert(!is_digit(rest[j - 3]));
                assert(!all_digits(rest));
            }
            return Err(NumError::InvalidDigit);
        }
        j += 1;
    }
    proof {
        assert forall|i: int| 0 <= i < beyond_three(frac@).len() implies is_digit(
            #[trigger] beyond_three(frac@)[i],
        ) by {
            assert(beyond_three(frac@)[i] == frac@[i + 3]);
        }
    }
    let up: u64 = if frac.len() > 3 && frac[3] >= 53 {
        1
    } else {
        0
    };
    let total: u64 = w as u64 * 1000 + f as u64 + up;
    if total > max as u64 {
        return Err(NumError::TooLarge);
    }
    Ok(total as u32)
}

/// A number that was read is no greater than the greatest that is taken.
pub proof fn lemma_parse_bound(s: Seq<u8>, max: nat)
    ensures
        parse_unsigned(s, max) matches Ok(v) ==> v <= max,
        parse_thousandths(s, max) matches Ok(v) ==> v <= max,
{
    if s.len() > 0 {
        lemma_scan_bound(unsigned_part(s), 0, max);
    }
}

/// What reading gives on top of a number within `max` is within `max`.
pub proof fn lemma_scan_bound(s: Seq<u8>, acc: nat, max: nat)
    requires
        acc <= max,
    ensures
        scan(s, acc, max) matches Ok(v) ==> v <= max,
    decreases s.len(),
{
    if s.len() > 0 && is_digit(s[0]) {
        let next = acc * 10 + (s[0] - 48) as nat;
        if next <= max {
            lemma_scan_bound(s.drop_first(), next, max);
        }
    }
}

} // verus!
