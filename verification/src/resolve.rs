//! The embedded-code resolver: recognize a command that is itself an
//! indirect shell invocation — `bash -c SCRIPT` or `sh -c SCRIPT` — and
//! extract the commands of the embedded script.

use vstd::prelude::*;
use crate::extract::{commands_of, parse_and_extract_commands};
use crate::strings::str_eq;
use crate::words::{shlex_split, split_words};

verus! {

/// What resolving one command yields: `None` when the command is no
/// recognizable indirect shell invocation (malformed quoting, fewer than
/// three words, another program, another flag, or an embedded script that
/// does not parse); otherwise the commands of the embedded script, which is
/// the third word — any further words are ignored.
pub open spec fn resolve_spec(cmd: Seq<char>) -> Option<Seq<Seq<char>>> {
    match shlex_split(cmd) {
        Some(ws) => if ws.len() >= 3 && (ws[0] == "bash"@ || ws[0] == "sh"@) && ws[1] == "-c"@ {
            commands_of(ws[2])
        } else {
            None
        },
        None => None,
    }
}

/// Attempt to resolve the command as an indirect shell invocation: when its
/// first word is exactly `bash` or `sh`, its second word is exactly `-c`,
/// and a third word exists and parses as a script, return that script's
/// commands, in document order. Any failure along the way returns `None`:
/// the command is then kept as a leaf. Every resolved command is strictly
/// shorter than the command it came out of.
pub fn process_embedded_code(command: &str) -> (r: Option<Vec<String>>)
    ensures
        r.deep_view() == resolve_spec(command@),
        r matches Some(inner) ==> forall|i: int|
            0 <= i < inner.deep_view().len()
                ==> #[trigger] inner.deep_view()[i].len() < command@.len(),
{
    let words = match split_words(command) {
        Some(ws) => ws,
        None => {
            return None;
        },
    };
    if words.len() < 3 {
        return None;
    }
    let shell = str_eq(words[0].as_str(), "bash") || str_eq(words[0].as_str(), "sh");
    if !shell {
        return None;
    }
    if !str_eq(words[1].as_str(), "-c") {
        return None;
    }
    proof {
        reveal_strlit("bash");
        reveal_strlit("sh");
        assert(words.deep_view()[0].len() >= 2);
    }
    match parse_and_extract_commands(words[2].as_str()) {
        Ok(inner) => {
            proof {
                assert(words.deep_view()[2].len() + 4 <= command@.len());
            }
            Some(inner)
        },
        Err(_) => None,
    }
}

} // verus!
