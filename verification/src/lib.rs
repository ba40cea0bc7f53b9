//! Extraction of the individual shell commands that a piece of shell script
//! source would run, including commands nested inside indirect shell
//! invocations such as `sh -c "..."`, with an optional normalization pass
//! over the textual form of each extracted command.

pub mod clean;
pub mod extract;
pub mod flatten;
pub mod resolve;
pub mod strings;
pub mod tree;
pub mod words;

pub use clean::clean_command;
pub use extract::{extract_commands, parse_and_extract_commands, ParseError};
pub use flatten::flatten_commands;
pub use resolve::process_embedded_code;

use vstd::prelude::*;
use crate::clean::spec_clean;
use crate::extract::commands_of;
use crate::flatten::flatten_list;

verus! {

/// What the whole run computes for a script source: `None` when the source
/// cannot be parsed at all; otherwise the flattened leaf commands of the
/// script in document order, each normalized when `clean` is set.
pub open spec fn spec_leaf_commands(code: Seq<char>, clean: bool) -> Option<Seq<Seq<char>>> {
    match commands_of(code) {
        None => None,
        Some(cs) => {
            let flat = flatten_list(cs);
            if clean {
                Some(flat.map_values(|c: Seq<char>| spec_clean(c)))
            } else {
                Some(flat)
            }
        },
    }
}

/// Extract every leaf command of the script source: parse it, collect its
/// command texts, flatten indirect shell invocations recursively, and, when
/// `clean` is set, normalize each resulting command. Fails exactly when the
/// top-level parse does.
pub fn script_leaf_commands(code: &str, clean: bool) -> (r: Result<Vec<String>, ParseError>)
    ensures
        r matches Ok(cmds) ==> spec_leaf_commands(code@, clean) == Some(cmds.deep_view()),
        r is Err ==> spec_leaf_commands(code@, clean) is None,
{
    let commands = match parse_and_extract_commands(code) {
        Ok(cs) => cs,
        Err(e) => {
            return Err(e);
        },
    };
    let flat = flatten_commands(commands);
    if clean {
        let mut cleaned: Vec<String> = Vec::new();
        let n = flat.len();
        let mut j: usize = 0;
        proof {
            assert(cleaned.deep_view() =~= flat.deep_view().take(0).map_values(
                |c: Seq<char>| spec_clean(c),
            ));
        }
        while j < n
            invariant
                n == flat.len(),
                j <= n,
                cleaned.deep_view() == flat.deep_view().take(j as int).map_values(
                    |c: Seq<char>| spec_clean(c),
                ),
            decreases n - j,
        {
            proof {
                assert(flat.deep_view()[j as int] == flat@[j as int]@);
                assert(cleaned.deep_view().len() == j as int);
                assert(cleaned@.len() == j as int);
            }
            let c = clean_command(flat[j].as_str());
            let ghost cv = c@;
            let ghost prev = cleaned@;
            let ghost pre_dv = cleaned.deep_view();
            cleaned.push(c);
            j += 1;
            proof {
                assert(cv == spec_clean(flat.deep_view()[j - 1]));
                assert(cleaned@.len() == j as int);
                let target = flat.deep_view().take(j as int).map_values(
                    |c: Seq<char>| spec_clean(c),
                );
                assert forall|i: int| 0 <= i < j implies cleaned.deep_view()[i] == target[i] by {
                    assert(cleaned.deep_view()[i] == cleaned@[i]@);
                    assert(target[i] == spec_clean(flat.deep_view().take(j as int)[i]));
                    if i < j - 1 {
                        assert(cleaned@[i] == prev[i]);
                        assert(pre_dv[i] == prev[i]@);
                        assert(pre_dv[i] == spec_clean(flat.deep_view().take(j - 1)[i]));
                    } else {
                        assert(cleaned@[i]@ == cv);
                    }
                }
                assert(cleaned.deep_view() =~= target);
            }
        }
        proof {
            assert(flat.deep_view().take(n as int) =~= flat.deep_view());
        }
        Ok(cleaned)
    } else {
        Ok(flat)
    }
}

} // verus!
