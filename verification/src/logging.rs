//! The log that the workers write and the terminal shows: lines of text,
//! those of errors marked.

use vstd::prelude::*;
use vstd::string::StrSliceExecFns;
use vstd::string::StringExecFns;

verus! {

/// The mark before and after the text of an error.
pub const FAKE_ANSI: char = '\x1b';

/// Adds `string` to the log as a line of its own.
pub fn log__(buf: &mut String, string: &str)
    ensures
        final(buf)@ == old(buf)@ + string@ + seq!['\n'],
{
    buf.append(string);
    buf.append("\n");
    proof {
        reveal_strlit("\n");
        assert("\n"@ =~= seq!['\n']);
    }
}

/// Adds `string` to the log as a line of its own, marked as an error.
pub fn log_err__(buf: &mut String, string: &str)
    ensures
        final(buf)@ == old(buf)@ + seq![FAKE_ANSI] + string@ + seq![FAKE_ANSI, '\n'],
{
    proof {
        reveal_strlit("\x1b");
        reveal_strlit("\n");
        assert("\x1b"@ =~= seq![FAKE_ANSI]);
        assert("\n"@ =~= seq!['\n']);
    }
    let ghost before = buf@;
    buf.append("\x1b");
    buf.append(string);
    buf.append("\x1b");
    buf.append("\n");
    proof {
        assert(buf@ =~= before + seq![FAKE_ANSI] + string@ + seq![FAKE_ANSI, '\n']);
    }
}

/// Takes what the log holds and leaves the log empty.
pub fn drain_log(buf: &mut String) -> (taken: String)
    ensures
        taken@ == old(buf)@,
        final(buf)@ == Seq::<char>::empty(),
{
    let taken = buf.clone();
    *buf = String::new();
    taken
}

/// The style of each character of a log, one letter for each character that
/// is shown: `A` for plain text and `B` for the text of an error. A mark
/// switches between the two and is not shown itself; `plain` says which of
/// the two the log starts in.
pub open spec fn styles(log: Seq<char>, plain: bool) -> Seq<char>
    decreases log.len(),
{
    if log.len() == 0 {
        Seq::empty()
    } else if log[0] == FAKE_ANSI {
        styles(log.drop_first(), !plain)
    } else {
        seq![if plain {
            'A'
        } else {
            'B'
        }] + styles(log.drop_first(), plain)
    }
}

/// The style of each character of `log` that is shown, for a log that starts
/// as plain text.
pub fn style_string(log: &str) -> (style: String)
    ensures
        style@ == styles(log@, true),
{
    proof {
        reveal_strlit("A");
        reveal_strlit("B");
        assert("A"@ =~= seq!['A']);
        assert("B"@ =~= seq!['B']);
    }
    let n = log.unicode_len();
    let mut style = String::new();
    let mut flag = true;
    let mut i: usize = 0;
    proof {
        assert(log@.skip(0) =~= log@);
    }
    while i < n
        invariant
            n == log@.len(),
            i <= n,
            "A"@ == seq!['A'],
            "B"@ == seq!['B'],
            styles(log@, true) == style@ + styles(log@.skip(i as int), flag),
        decreases n - i,
    {
        let c = log.get_char(i);
        proof {
            assert(log@.skip(i as int)[0] == c);
            assert(log@.skip(i as int).drop_first() =~= log@.skip(i + 1));
        }
        let ghost before = style@;
        if c == FAKE_ANSI {
            flag = !flag;
        } else if flag {
            style.append("A");
            proof {
                assert(before + (seq!['A'] + styles(log@.skip(i + 1), flag)) =~= style@ + styles(
                    log@.skip(i + 1),
                    flag,
                ));
            }
        } else {
            style.append("B");
            proof {
                assert(before + (seq!['B'] + styles(log@.skip(i + 1), flag)) =~= style@ + styles(
                    log@.skip(i + 1),
                    flag,
                ));
            }
        }
        i += 1;
    }
    proof {
        assert(log@.skip(n as int).len() == 0);
        assert(style@ + Seq::<char>::empty() =~= style@);
    }
    style
}

} // verus!
