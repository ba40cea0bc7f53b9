//! The shell-word splitter and joiner, an external collaborator: splitting
//! respects quoting rules and fails on malformed quoting; joining re-derives
//! minimal-but-correct quoting around each word.

use vstd::prelude::*;
use crate::strings::no_continuation;

verus! {

/// What splitting a string into shell words yields: `None` on malformed
/// quoting, otherwise the words in order. The split is a function of the
/// string alone; it only gets a name here, and contracts speak of that name.
pub uninterp spec fn shlex_split(s: Seq<char>) -> Option<Seq<Seq<char>>>;

/// What joining shell words back into one command line yields: `None` when
/// a word cannot be encoded (it holds a nul character), otherwise the words
/// quoted and separated by single spaces.
pub uninterp spec fn shlex_join(words: Seq<Seq<char>>) -> Option<Seq<char>>;

/// Split a command line into shell words.
///
/// Relies on `shlex::split`: `None` exactly on malformed quoting. Each
/// word's characters are read from distinct characters of the input, and
/// consecutive words are separated by at least one whitespace character, so
/// when there are three or more words, the first and third words together
/// with two separators fit within the input.
#[verifier::external_body]
pub fn split_words(s: &str) -> (r: Option<Vec<String>>)
    ensures
        r.deep_view() == shlex_split(s@),
        r matches Some(ws) ==> ws.deep_view().len() >= 3
            ==> ws.deep_view()[0].len() + ws.deep_view()[2].len() + 2 <= s@.len(),
{
    shlex::split(s)
}

/// Join shell words into a single command line.
///
/// Relies on `shlex::try_join` and its quoting strategies: the result splits
/// back into exactly the given words; a backslash appears in the result only
/// as part of a double-quoted escape pair or copied from a word, so it is
/// followed by a newline or a carriage return only where a word already had
/// that; and joining no words yields the empty string.
#[verifier::external_body]
pub fn join_words(words: &Vec<String>) -> (r: Option<String>)
    ensures
        r.deep_view() == shlex_join(words.deep_view()),
        r matches Some(out) ==> shlex_split(out@) == Some(words.deep_view()),
        r matches Some(out) ==> (forall|i: int|
            0 <= i < words.deep_view().len()
                ==> no_continuation(#[trigger] words.deep_view()[i])) ==> no_continuation(out@),
        r is Some || words@.len() != 0,
        r matches Some(out) ==> words@.len() == 0 ==> out@.len() == 0,
{
    shlex::try_join(words.iter().map(|w| w.as_str())).ok()
}

} // verus!
