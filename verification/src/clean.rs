//! The normalizer: collapse escaped line continuations to single spaces,
//! then re-derive canonical quoting by splitting the command into shell
//! words and joining them back. Total: on any failure it degrades to the
//! empty string rather than erroring.

use vstd::prelude::*;
use crate::strings::{chars_to_string, no_continuation};
use crate::words::{shlex_split, shlex_join, split_words, join_words};

verus! {

/// The text with every `backslash, newline` pair and every
/// `backslash, carriage return, newline` triple replaced by one space,
/// scanning left to right.
pub open spec fn spec_collapse(s: Seq<char>) -> Seq<char>
    decreases s.len(),
{
    if s.len() >= 2 && s[0] == '\\' && s[1] == '\n' {
        seq![' '] + spec_collapse(s.skip(2))
    } else if s.len() >= 3 && s[0] == '\\' && s[1] == '\r' && s[2] == '\n' {
        seq![' '] + spec_collapse(s.skip(3))
    } else if s.len() == 0 {
        Seq::empty()
    } else {
        seq![s[0]] + spec_collapse(s.skip(1))
    }
}

/// Collapsing is the identity on text without line continuations.
pub proof fn lemma_collapse_identity(s: Seq<char>)
    requires
        no_continuation(s),
    ensures
        spec_collapse(s) == s,
    decreases s.len(),
{
    if s.len() == 0 {
        assert(spec_collapse(s) =~= s);
    } else {
        if s.len() >= 2 && s[0] == '\\' && s[1] == '\n' {
            assert(!(s[0] == '\\' && (s[1] == '\n' || (2 < s.len() && s[1] == '\r' && s[2]
                == '\n'))));
        }
        if s.len() >= 3 && s[0] == '\\' && s[1] == '\r' && s[2] == '\n' {
            assert(!(s[0] == '\\' && (s[1] == '\n' || (2 < s.len() && s[1] == '\r' && s[2]
                == '\n'))));
        }
        assert(no_continuation(s.skip(1))) by {
            assert forall|i: int|
                0 <= i && i + 1 < s.skip(1).len() implies !(#[trigger] s.skip(1)[i] == '\\' && (
            s.skip(1)[i + 1] == '\n' || (i + 2 < s.skip(1).len() && s.skip(1)[i + 1] == '\r'
                && s.skip(1)[i + 2] == '\n'))) by {
                assert(s[i + 1] == s.skip(1)[i]);
            }
        }
        lemma_collapse_identity(s.skip(1));
        assert(seq![s[0]] + s.skip(1) =~= s);
    }
}

/// Collapse every escaped line continuation of the command to one space.
pub fn collapse_continuations(s: &str) -> (r: String)
    ensures
        r@ == spec_collapse(s@),
{
    let n = s.unicode_len();
    let mut out: Vec<char> = Vec::new();
    let mut i: usize = 0;
    proof {
        assert(s@.skip(0) =~= s@);
        assert(out@ + spec_collapse(s@.skip(0)) =~= spec_collapse(s@));
    }
    while i < n
        invariant
            n == s@.len(),
            i <= n,
            spec_collapse(s@) == out@ + spec_collapse(s@.skip(i as int)),
        decreases n - i,
    {
        let c = s.get_char(i);
        let ghost pre = out@;
        let ghost rest = s@.skip(i as int);
        if c == '\\' && i + 1 < n && s.get_char(i + 1) == '\n' {
            out.push(' ');
            proof {
                assert(rest.len() >= 2 && rest[0] == '\\' && rest[1] == '\n');
                assert(rest.skip(2) =~= s@.skip(i as int + 2));
                assert(out@ =~= pre + seq![' ']);
                assert(pre + spec_collapse(rest) =~= out@ + spec_collapse(s@.skip(i as int + 2)));
            }
            i += 2;
        } else if c == '\\' && i + 1 < n && s.get_char(i + 1) == '\r' && i + 2 < n && s.get_char(
            i + 2,
        ) == '\n' {
            out.push(' ');
            proof {
                assert(rest.len() >= 3 && rest[0] == '\\' && rest[1] == '\r' && rest[2] == '\n');
                assert(rest.skip(3) =~= s@.skip(i as int + 3));
                assert(out@ =~= pre + seq![' ']);
                assert(pre + spec_collapse(rest) =~= out@ + spec_collapse(s@.skip(i as int + 3)));
            }
            i += 3;
        } else {
            out.push(c);
            proof {
                assert(rest.len() >= 1 && rest[0] == c);
                assert(spec_collapse(rest) == seq![rest[0]] + spec_collapse(rest.skip(1)));
                assert(rest.skip(1) =~= s@.skip(i as int + 1));
                assert(out@ =~= pre + seq![c]);
                assert(pre + spec_collapse(rest) =~= out@ + spec_collapse(s@.skip(i as int + 1)));
            }
            i += 1;
        }
    }
    proof {
        assert(s@.skip(n as int) =~= Seq::<char>::empty());
        assert(spec_collapse(s@) =~= out@);
    }
    chars_to_string(&out)
}

/// What normalizing a command yields: collapse its line continuations,
/// split into shell words (no words on malformed quoting), and join the
/// words back (the empty text when joining fails).
pub open spec fn spec_clean(cmd: Seq<char>) -> Seq<char> {
    let words = match shlex_split(spec_collapse(cmd)) {
        Some(ws) => ws,
        None => Seq::<Seq<char>>::empty(),
    };
    match shlex_join(words) {
        Some(out) => out,
        None => Seq::<char>::empty(),
    }
}

/// The commands on which normalization is stable. Either the collapsed
/// command splits into words that can be joined back, none of which itself
/// holds a backslash line continuation (such a word cannot survive a second
/// collapsing pass unchanged); or splitting fails, and the degraded result
/// is the empty command, which normalizes to itself.
pub open spec fn clean_stable_input(cmd: Seq<char>) -> bool {
    match shlex_split(spec_collapse(cmd)) {
        Some(ws) => shlex_join(ws) is Some && forall|i: int|
            0 <= i < ws.len() ==> no_continuation(#[trigger] ws[i]),
        None => true,
    }
}

/// Normalize the textual form of one command: collapse escaped newlines,
/// split into shell words, and re-join with canonical quoting. Degrades to
/// the empty string when the command cannot be split or re-joined.
///
/// Normalizing is idempotent on every stable input: normalizing an already
/// normalized command returns it unchanged.
pub fn clean_command(command: &str) -> (r: String)
    ensures
        r@ == spec_clean(command@),
        clean_stable_input(command@) ==> spec_clean(r@) == r@,
{
    let collapsed = collapse_continuations(command);
    let words = match split_words(collapsed.as_str()) {
        Some(ws) => ws,
        None => Vec::new(),
    };
    proof {
        if shlex_split(spec_collapse(command@)) is None {
            assert(words.deep_view() =~= Seq::<Seq<char>>::empty());
        }
    }
    match join_words(&words) {
        Some(out) => {
            proof {
                if words.deep_view().len() == 0 {
                    assert(out@ =~= Seq::<char>::empty());
                }
                if clean_stable_input(command@) {
                    lemma_collapse_identity(out@);
                }
            }
            out
        },
        None => String::new(),
    }
}

} // verus!
