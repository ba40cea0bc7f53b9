//! The flattening driver: replace every command that resolves as an
//! indirect shell invocation by the commands found inside it, recursively,
//! until only leaf commands remain, preserving document order.
//!
//! Flattening terminates on every input: a resolved command's embedded
//! script is a word strictly inside the command's own text, so every
//! command it yields is strictly shorter than the command it replaces.

use vstd::prelude::*;
use crate::resolve::{resolve_spec, process_embedded_code};

verus! {

/// The leaf commands that one command flattens to: itself when it does not
/// resolve, otherwise the flattening of the commands of its embedded
/// script. Commands at least as long as their container — which resolution
/// can never produce — are kept as leaves, which bounds the recursion.
pub open spec fn flatten_one(cmd: Seq<char>) -> Seq<Seq<char>>
    decreases cmd.len() + 1nat, 0nat,
{
    match resolve_spec(cmd) {
        Some(inner) => flatten_bounded(inner, cmd.len()),
        None => seq![cmd],
    }
}

/// The concatenated flattenings of a sequence of commands, where commands
/// of at least `bound` characters are kept as leaves.
pub open spec fn flatten_bounded(cmds: Seq<Seq<char>>, bound: nat) -> Seq<Seq<char>>
    decreases bound, cmds.len(),
{
    if cmds.len() == 0 {
        Seq::empty()
    } else {
        let first = if cmds[0].len() < bound {
            flatten_one(cmds[0])
        } else {
            seq![cmds[0]]
        };
        first + flatten_bounded(cmds.drop_first(), bound)
    }
}

/// The concatenated flattenings of a sequence of commands, in order.
pub open spec fn flatten_list(cmds: Seq<Seq<char>>) -> Seq<Seq<char>>
    decreases cmds.len(),
{
    if cmds.len() == 0 {
        Seq::empty()
    } else {
        flatten_one(cmds[0]) + flatten_list(cmds.drop_first())
    }
}

/// When every command is shorter than the bound, the bound plays no part.
proof fn lemma_flatten_bounded_is_list(cmds: Seq<Seq<char>>, bound: nat)
    requires
        forall|i: int| 0 <= i < cmds.len() ==> #[trigger] cmds[i].len() < bound,
    ensures
        flatten_bounded(cmds, bound) == flatten_list(cmds),
    decreases cmds.len(),
{
    if cmds.len() != 0 {
        lemma_flatten_bounded_is_list(cmds.drop_first(), bound);
    }
}

/// A command that resolves flattens to the flattening of the commands it
/// resolved to, as long as those are all strictly shorter than it — which
/// holds of everything resolution yields.
pub proof fn lemma_flatten_resolved(cmd: Seq<char>, inner: Seq<Seq<char>>)
    requires
        resolve_spec(cmd) == Some(inner),
        forall|i: int| 0 <= i < inner.len() ==> #[trigger] inner[i].len() < cmd.len(),
    ensures
        flatten_one(cmd) == flatten_list(inner),
{
    lemma_flatten_bounded_is_list(inner, cmd.len());
}

/// Flattening a list splits over concatenation.
pub proof fn lemma_flatten_list_concat(a: Seq<Seq<char>>, b: Seq<Seq<char>>)
    ensures
        flatten_list(a + b) == flatten_list(a) + flatten_list(b),
    decreases a.len(),
{
    if a.len() == 0 {
        assert(a + b =~= b);
        assert(flatten_list(a) + flatten_list(b) =~= flatten_list(b));
    } else {
        assert((a + b).drop_first() =~= a.drop_first() + b);
        assert((a + b)[0] == a[0]);
        lemma_flatten_list_concat(a.drop_first(), b);
        assert(flatten_list(a + b) =~= flatten_list(a) + flatten_list(b));
    }
}

/// Flattening a list of one command is flattening that command.
pub proof fn lemma_flatten_singleton(cmd: Seq<char>)
    ensures
        flatten_list(seq![cmd]) == flatten_one(cmd),
{
    assert(seq![cmd][0] == cmd);
    assert(seq![cmd].drop_first() =~= Seq::<Seq<char>>::empty());
    assert(flatten_list(Seq::<Seq<char>>::empty()) == Seq::<Seq<char>>::empty());
    assert(flatten_list(seq![cmd]) =~= flatten_one(cmd));
}

/// Flattening a list extended by one command appends that command's
/// flattening.
proof fn lemma_flatten_list_snoc(s: Seq<Seq<char>>, x: Seq<char>)
    ensures
        flatten_list(s.push(x)) == flatten_list(s) + flatten_one(x),
{
    assert(s.push(x) =~= s + seq![x]);
    lemma_flatten_list_concat(s, seq![x]);
    lemma_flatten_singleton(x);
}

/// Resolution replaces a command in place among its siblings: flattening a
/// list around one resolvable command yields the flattened left siblings,
/// then the flattening of the commands found inside it, then the flattened
/// right siblings — order-preserving and non-interleaving.
pub proof fn lemma_flatten_in_place(
    before: Seq<Seq<char>>,
    cmd: Seq<char>,
    after: Seq<Seq<char>>,
    inner: Seq<Seq<char>>,
)
    requires
        resolve_spec(cmd) == Some(inner),
        forall|i: int| 0 <= i < inner.len() ==> #[trigger] inner[i].len() < cmd.len(),
    ensures
        flatten_list(before + seq![cmd] + after) == flatten_list(before) + flatten_list(inner)
            + flatten_list(after),
{
    lemma_flatten_resolved(cmd, inner);
    lemma_flatten_list_concat(before + seq![cmd], after);
    lemma_flatten_list_concat(before, seq![cmd]);
    lemma_flatten_singleton(cmd);
}

fn flatten_into(cmd: &String, out: &mut Vec<String>)
    ensures
        final(out).deep_view() == old(out).deep_view() + flatten_one(cmd@),
    decreases cmd@.len(),
{
    let ghost entry = out.deep_view();
    match process_embedded_code(cmd.as_str()) {
        None => {
            out.push(cmd.clone());
            proof {
                assert(out.deep_view() =~= entry + flatten_one(cmd@));
            }
        },
        Some(inner) => {
            proof {
                lemma_flatten_resolved(cmd@, inner.deep_view());
            }
            let n = inner.len();
            let mut j: usize = 0;
            while j < n
                invariant
                    n == inner.len(),
                    j <= n,
                    resolve_spec(cmd@) == Some(inner.deep_view()),
                    forall|i: int| 0 <= i < n ==> #[trigger] inner.deep_view()[i].len()
                        < cmd@.len(),
                    out.deep_view() == entry + flatten_list(inner.deep_view().take(j as int)),
                decreases n - j,
            {
                let ghost before = inner.deep_view().take(j as int);
                proof {
                    assert(inner.deep_view()[j as int] == inner@[j as int]@);
                }
                flatten_into(&inner[j], out);
                j += 1;
                proof {
                    let taken = inner.deep_view().take(j as int);
                    assert(taken =~= before.push(inner.deep_view()[j - 1]));
                    lemma_flatten_list_snoc(before, inner.deep_view()[j - 1]);
                    assert(out.deep_view() =~= entry + flatten_list(taken));
                }
            }
            proof {
                assert(inner.deep_view().take(n as int) =~= inner.deep_view());
            }
        },
    }
}

/// Flatten a list of commands: resolve each in turn, replacing every
/// indirect shell invocation by the commands found inside it, recursively,
/// and keep everything else as a leaf, preserving document order.
pub fn flatten_commands(commands: Vec<String>) -> (out: Vec<String>)
    ensures
        out.deep_view() == flatten_list(commands.deep_view()),
{
    let mut out: Vec<String> = Vec::new();
    let n = commands.len();
    let mut j: usize = 0;
    while j < n
        invariant
            n == commands.len(),
            j <= n,
            out.deep_view() == flatten_list(commands.deep_view().take(j as int)),
        decreases n - j,
    {
        let ghost before = commands.deep_view().take(j as int);
        proof {
            assert(commands.deep_view()[j as int] == commands@[j as int]@);
        }
        flatten_into(&commands[j], &mut out);
        j += 1;
        proof {
            let taken = commands.deep_view().take(j as int);
            assert(taken =~= before.push(commands.deep_view()[j - 1]));
            lemma_flatten_list_snoc(before, commands.deep_view()[j - 1]);
        }
    }
    proof {
        assert(commands.deep_view().take(n as int) =~= commands.deep_view());
    }
    out
}

} // verus!
