//! The arithmetic of the window layout, and the wrapping of labels.

use crate::config::number::index_of;
use crate::config::number::lemma_index_of;
use crate::config::number::lemma_index_of_is;
use vstd::prelude::*;

verus! {

/// A rectangle of the window: the top left corner and the extent.
#[derive(Clone, Copy, Debug, PartialEq, Eq, Structural)]
pub struct Bounds {
    pub x: i32,
    pub y: i32,
    pub w: i32,
    pub h: i32,
}

impl Bounds {
    pub fn new(x: i32, y: i32, w: i32, h: i32) -> (b: Self)
        ensures
            b == (Bounds { x, y, w, h }),
    {
        Self { x, y, w, h }
    }

    /// Whether the rectangle can be drawn in by `gap` on every side without
    /// a number leaving its range.
    pub open spec fn can_gapify(&self, gap: i32) -> bool {
        &&& i32::MIN <= self.x + gap <= i32::MAX
        &&& i32::MIN <= self.y + gap <= i32::MAX
        &&& i32::MIN <= gap * 2 <= i32::MAX
        &&& i32::MIN <= self.w - gap * 2 <= i32::MAX
        &&& i32::MIN <= self.h - gap * 2 <= i32::MAX
    }

    /// The rectangle drawn in by `gap` on every side.
    pub fn gapify(&self, gap: i32) -> (b: Self)
        requires
            self.can_gapify(gap),
        ensures
            b.x == self.x + gap,
            b.y == self.y + gap,
            b.w == self.w - gap * 2,
            b.h == self.h - gap * 2,
    {
        Self::new(self.x + gap, self.y + gap, self.w - (gap * 2), self.h - (gap * 2))
    }
}

/// `val` held between `min` and `max`: `min` where it is less, `max` where
/// it is greater and not less than `min`.
pub fn clamp(val: i32, min: i32, max: i32) -> (out: i32)
    ensures
        out == if val < min {
            min
        } else if val > max {
            max
        } else {
            val
        },
{
    if val < min {
        min
    } else if val > max {
        max
    } else {
        val
    }
}

/// The last place up to `upto` at which a space stands in `s`; -1 if there
/// is none.
pub open spec fn last_space(s: Seq<u8>, upto: int) -> int
    decreases upto + 1,
{
    if upto < 0 {
        -1
    } else if s[upto] == 32 {
        upto
    } else {
        last_space(s, upto - 1)
    }
}

/// A line wrapped to `line_w`: a line of more than `line_w + 1` bytes is
/// broken at its last space among the first `line_w + 1` bytes, and what
/// follows the break is wrapped in the same way. A long line without a space
/// to break it at stays as it is.
pub open spec fn wrap_line(line: Seq<u8>, line_w: nat) -> Seq<u8>
    decreases line.len(),
{
    if line.len() <= line_w + 1 {
        line
    } else {
        let k = last_space(line, line_w as int);
        if 0 <= k <= line_w {
            line.take(k).push(10) + wrap_line(line.skip(k + 1), line_w)
        } else {
            line
        }
    }
}

/// A text wrapped to `line_w`: each of its lines wrapped, the line feeds
/// between them as they were.
pub open spec fn wrapped(s: Seq<u8>, line_w: nat) -> Seq<u8>
    decreases s.len(),
{
    let i = index_of(s, 10);
    if 0 <= i < s.len() {
        wrap_line(s.take(i), line_w).push(10) + wrapped(s.skip(i + 1), line_w)
    } else {
        wrap_line(s, line_w)
    }
}

/// The last space up to a place is a space at or before that place, with no
/// space between it and the place.
pub proof fn lemma_last_space(s: Seq<u8>, upto: int)
    requires
        -1 <= upto < s.len(),
    ensures
        -1 <= last_space(s, upto) <= upto,
        last_space(s, upto) >= 0 ==> s[last_space(s, upto)] == 32,
        forall|j: int| last_space(s, upto) < j <= upto ==> s[j] != 32,
    decreases upto + 1,
{
    if upto >= 0 && s[upto] != 32 {
        lemma_last_space(s, upto - 1);
    }
}

/// The last space up to a place does not depend on what follows the place.
pub proof fn lemma_last_space_prefix(s: Seq<u8>, t: Seq<u8>, upto: int)
    requires
        -1 <= upto < s.len(),
        upto < t.len(),
        forall|j: int| 0 <= j <= upto ==> s[j] == t[j],
    ensures
        last_space(s, upto) == last_space(t, upto),
    decreases upto + 1,
{
    if upto >= 0 && s[upto] != 32 {
        lemma_last_space_prefix(s, t, upto - 1);
    }
}

/// Wrapping a text whose first line breaks at `k`: the break takes the
/// place of the space, and what follows is wrapped as a text of its own.
pub proof fn lemma_wrapped_break(s: Seq<u8>, line_w: nat, k: int)
    requires
        index_of(s, 10) > line_w + 1,
        k == last_space(s, line_w as int),
        0 <= k,
    ensures
        k <= line_w,
        wrapped(s, line_w) == s.take(k).push(10) + wrapped(s.skip(k + 1), line_w),
{
    lemma_index_of(s, 10);
    let i = index_of(s, 10);
    lemma_last_space(s, line_w as int);
    let line = if i < s.len() {
        s.take(i)
    } else {
        s
    };
    lemma_last_space_prefix(s, line, line_w as int);
    let rest = s.skip(k + 1);
    assert forall|j: int| 0 <= j < i - k - 1 implies rest[j] != 10 by {
        assert(rest[j] == s[j + k + 1]);
    }
    if i < s.len() {
        assert(rest[i - k - 1] == 10);
    }
    lemma_index_of_is(rest, 10, i - k - 1);
    assert(line.take(k) =~= s.take(k));
    if i < s.len() {
        assert(rest.take(i - k - 1) =~= line.skip(k + 1));
        assert(rest.skip(i - k) =~= s.skip(i + 1));
        let tail = wrapped(s.skip(i + 1), line_w);
        let cut = wrap_line(line.skip(k + 1), line_w);
        assert((s.take(k).push(10) + cut).push(10) + tail =~= s.take(k).push(10) + (cut.push(10)
            + tail));
    } else {
        assert(rest =~= line.skip(k + 1));
    }
}

/// Wrapping a text whose first line stays as it is: the line and its line
/// feed, if it has one, and then what follows, wrapped as a text of its own.
pub proof fn lemma_wrapped_keep(s: Seq<u8>, line_w: nat)
    requires
        index_of(s, 10) <= line_w + 1 || last_space(s, line_w as int) < 0,
    ensures
        index_of(s, 10) < s.len() ==> wrapped(s, line_w) == s.take(index_of(s, 10) + 1) + wrapped(
            s.skip(index_of(s, 10) + 1),
            line_w,
        ),
        index_of(s, 10) >= s.len() ==> wrapped(s, line_w) == s,
{
    lemma_index_of(s, 10);
    let i = index_of(s, 10);
    let line = if i < s.len() {
        s.take(i)
    } else {
        s
    };
    if i > line_w + 1 {
        lemma_last_space_prefix(s, line, line_w as int);
        lemma_last_space(s, line_w as int);
    }
    assert(wrap_line(line, line_w) == line);
    if i < s.len() {
        assert(s.take(i).push(10) =~= s.take(i + 1));
    }
}

/// Wraps the text in `wrap` to `line_w` in place: spaces become line feeds
/// where lines are broken, and nothing else changes.
pub fn wrap_str_inplace(wrap: &mut Vec<u8>, line_w: usize)
    ensures
        final(wrap)@ == wrapped(old(wrap)@, line_w as nat),
{
    let n = wrap.len();
    let ghost orig = wrap@;
    let mut start: usize = 0;
    proof {
        assert(orig.skip(0) =~= orig);
        assert(wrap@.take(0) + wrapped(orig, line_w as nat) =~= wrapped(orig, line_w as nat));
    }
    while start < n
        invariant
            wrap@.len() == n,
            orig.len() == n,
            start <= n,
            wrap@.skip(start as int) == orig.skip(start as int),
            wrapped(orig, line_w as nat) == wrap@.take(start as int) + wrapped(
                orig.skip(start as int),
                line_w as nat,
            ),
            start == n ==> wrapped(orig.skip(start as int), line_w as nat).len() == 0,
        decreases n - start,
    {
        let ghost rest = orig.skip(start as int);
        let ghost done = wrap@.take(start as int);
        let mut idx: usize = start;
        let mut last_space_idx: Option<usize> = None;
        proof {
            assert forall|j: int| start <= j < n implies wrap@[j] == orig[j] by {
                assert(wrap@.skip(start as int)[j - start] == orig.skip(start as int)[j - start]);
            }
        }
        while idx < n && wrap[idx] != 10 && idx - start <= line_w
            invariant
                wrap@.len() == n,
                orig.len() == n,
                start <= idx <= n,
                idx - start <= line_w + 1,
                rest == orig.skip(start as int),
                forall|j: int| start <= j < n ==> wrap@[j] == orig[j],
                forall|j: int| 0 <= j < idx - start ==> rest[j] != 10,
                match last_space_idx {
                    Some(k) => start <= k < idx && k - start == last_space(
                        rest,
                        idx - start - 1,
                    ),
                    None => last_space(rest, idx - start - 1) == -1,
                },
            decreases n - idx,
        {
            proof {
                assert(rest[idx - start] == orig[idx as int]);
            }
            if wrap[idx] == 32 {
                last_space_idx = Some(idx);
            }
            idx += 1;
        }
        let long = idx < n && wrap[idx] != 10;
        proof {
            if idx < n {
                assert(rest[idx - start] == orig[idx as int]);
            }
        }
        if long && last_space_idx.is_some() {
            let k = last_space_idx.unwrap();
            proof {
                lemma_index_of(rest, 10);
                let i = index_of(rest, 10);
                if i <= line_w + 1 {
                    if i < rest.len() {
                        assert(rest[i] == 10);
                    }
                }
                lemma_wrapped_break(rest, line_w as nat, k - start);
            }
            wrap.set(k, 10);
            proof {
                assert(wrap@.take(k + 1) =~= done + rest.take(k - start).push(10));
                assert(orig.skip(k + 1) =~= rest.skip(k - start + 1));
                assert(wrap@.skip(k + 1) =~= orig.skip(k + 1));
                assert((done + rest.take(k - start).push(10)) + wrapped(
                    rest.skip(k - start + 1),
                    line_w as nat,
                ) =~= done + (rest.take(k - start).push(10) + wrapped(
                    rest.skip(k - start + 1),
                    line_w as nat,
                )));
            }
            start = k + 1;
        } else {
            while idx < n && wrap[idx] != 10
                invariant
                    wrap@.len() == n,
                    orig.len() == n,
                    start <= idx <= n,
                    rest == orig.skip(start as int),
                    forall|j: int| start <= j < n ==> wrap@[j] == orig[j],
                    forall|j: int| 0 <= j < idx - start ==> rest[j] != 10,
                decreases n - idx,
            {
                proof {
                    assert(rest[idx - start] == orig[idx as int]);
                }
                idx += 1;
            }
            proof {
                if idx < n {
                    assert(rest[idx - start] == orig[idx as int]);
                }
                lemma_index_of_is(rest, 10, idx - start);
                lemma_wrapped_keep(rest, line_w as nat);
            }
            if idx < n {
                proof {
                    assert(wrap@.take(idx + 1) =~= done + rest.take(idx - start + 1));
                    assert(orig.skip(idx + 1) =~= rest.skip(idx - start + 1));
                    assert(wrap@.skip(idx + 1) =~= orig.skip(idx + 1));
                    assert((done + rest.take(idx - start + 1)) + wrapped(
                        rest.skip(idx - start + 1),
                        line_w as nat,
                    ) =~= done + (rest.take(idx - start + 1) + wrapped(
                        rest.skip(idx - start + 1),
                        line_w as nat,
                    )));
                    if idx + 1 == n {
                        lemma_wrapped_empty(line_w as nat);
                        assert(orig.skip(n as int) =~= Seq::<u8>::empty());
                    }
                }
                start = idx + 1;
            } else {
                proof {
                    assert(wrap@.take(n as int) =~= done + rest);
                    assert(orig.skip(n as int) =~= Seq::<u8>::empty());
                    lemma_wrapped_empty(line_w as nat);
                    assert((done + rest) + Seq::<u8>::empty() =~= done + rest);
                }
                start = n;
            }
        }
    }
    proof {
        if n == 0 {
            lemma_wrapped_empty(line_w as nat);
            assert(orig =~= Seq::<u8>::empty());
        }
        assert(wrap@.take(n as int) =~= wrap@);
        assert(wrap@ + Seq::<u8>::empty() =~= wrap@);
    }
}

/// Nothing wraps to nothing.
pub proof fn lemma_wrapped_empty(line_w: nat)
    ensures
        wrapped(Seq::<u8>::empty(), line_w) == Seq::<u8>::empty(),
{
}

} // verus!
