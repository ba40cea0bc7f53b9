//! The syntax tree walker: collects, in document order, the text of every
//! node whose kind is the grammar's simple-command construct.

use vstd::prelude::*;
use crate::tree::{
    SyntaxNode, NodeView, node_view, views_of, lemma_views_of, texts_bounded, all_texts_bounded,
    bash_tree, parse_bash,
};
use crate::strings::str_eq;

verus! {

/// The command texts contributed by the node itself: its own text when its
/// kind is the simple-command construct, nothing otherwise.
pub open spec fn own_command(n: NodeView) -> Seq<Seq<char>> {
    if n.kind == "command"@ {
        seq![n.text]
    } else {
        Seq::empty()
    }
}

/// The command texts of a tree, in document order: the node's own
/// contribution first, then those of its children, left to right.
pub open spec fn extract_spec(n: NodeView) -> Seq<Seq<char>>
    decreases n,
{
    own_command(n) + extract_all(n.children)
}

/// The command texts of a sequence of trees, in order.
pub open spec fn extract_all(ns: Seq<NodeView>) -> Seq<Seq<char>>
    decreases ns,
{
    if ns.len() == 0 {
        Seq::empty()
    } else {
        extract_spec(ns[0]) + extract_all(ns.drop_first())
    }
}

/// Whether the tree holds any node of the simple-command kind.
pub open spec fn has_command(n: NodeView) -> bool
    decreases n,
{
    n.kind == "command"@ || any_has_command(n.children)
}

/// Whether any of the trees holds a node of the simple-command kind.
pub open spec fn any_has_command(ns: Seq<NodeView>) -> bool
    decreases ns,
{
    ns.len() != 0 && (has_command(ns[0]) || any_has_command(ns.drop_first()))
}

/// A tree with no command construct yields an empty extraction.
pub proof fn lemma_no_commands_empty(n: NodeView)
    requires
        !has_command(n),
    ensures
        extract_spec(n) == Seq::<Seq<char>>::empty(),
    decreases n,
{
    lemma_no_commands_empty_all(n.children);
    assert(extract_spec(n) =~= Seq::<Seq<char>>::empty());
}

/// Trees with no command construct yield an empty extraction.
pub proof fn lemma_no_commands_empty_all(ns: Seq<NodeView>)
    requires
        !any_has_command(ns),
    ensures
        extract_all(ns) == Seq::<Seq<char>>::empty(),
    decreases ns,
{
    if ns.len() != 0 {
        lemma_no_commands_empty(ns[0]);
        lemma_no_commands_empty_all(ns.drop_first());
        assert(extract_all(ns) =~= Seq::<Seq<char>>::empty());
    }
}

/// In a tree whose texts all have at most `limit` characters, so has every
/// extracted command text.
pub proof fn lemma_extract_bounded(n: NodeView, limit: nat)
    requires
        texts_bounded(n, limit),
    ensures
        forall|i: int| 0 <= i < extract_spec(n).len() ==> #[trigger] extract_spec(n)[i].len() <= limit,
    decreases n,
{
    lemma_extract_bounded_all(n.children, limit);
    assert forall|i: int| 0 <= i < extract_spec(n).len()
        implies #[trigger] extract_spec(n)[i].len() <= limit by {
        if i < own_command(n).len() {
            assert(extract_spec(n)[i] == n.text);
        } else {
            assert(extract_spec(n)[i] == extract_all(n.children)[i - own_command(n).len()]);
        }
    }
}

/// The same bound, over a sequence of trees.
pub proof fn lemma_extract_bounded_all(ns: Seq<NodeView>, limit: nat)
    requires
        all_texts_bounded(ns, limit),
    ensures
        forall|i: int| 0 <= i < extract_all(ns).len() ==> #[trigger] extract_all(ns)[i].len() <= limit,
    decreases ns,
{
    if ns.len() != 0 {
        lemma_extract_bounded(ns[0], limit);
        lemma_extract_bounded_all(ns.drop_first(), limit);
        assert forall|i: int| 0 <= i < extract_all(ns).len()
            implies #[trigger] extract_all(ns)[i].len() <= limit by {
            if i < extract_spec(ns[0]).len() {
                assert(extract_all(ns)[i] == extract_spec(ns[0])[i]);
            } else {
                assert(extract_all(ns)[i]
                    == extract_all(ns.drop_first())[i - extract_spec(ns[0]).len()]);
            }
        }
    }
}

proof fn lemma_extract_all_snoc(ns: Seq<NodeView>, tail: NodeView)
    ensures
        extract_all(ns.push(tail)) == extract_all(ns) + extract_spec(tail),
    decreases ns,
{
    if ns.len() == 0 {
        let a = ns.push(tail);
        assert(a[0] == tail);
        assert(a.drop_first() =~= Seq::<NodeView>::empty());
        assert(extract_all(a.drop_first()) == Seq::<Seq<char>>::empty());
        assert(extract_all(a) == extract_spec(tail) + extract_all(a.drop_first()));
        assert(extract_all(ns) == Seq::<Seq<char>>::empty());
        assert(extract_all(a) =~= extract_all(ns) + extract_spec(tail));
    } else {
        let a = ns.push(tail);
        assert(a.drop_first() =~= ns.drop_first().push(tail));
        assert(a[0] == ns[0]);
        lemma_extract_all_snoc(ns.drop_first(), tail);
        assert(extract_all(a) == extract_spec(a[0]) + extract_all(a.drop_first()));
        assert(extract_all(a) =~= extract_all(ns) + extract_spec(tail));
    }
}

fn extract_into(node: &SyntaxNode, out: &mut Vec<String>)
    ensures
        final(out).deep_view() == old(out).deep_view() + extract_spec(node@),
    decreases *node,
{
    let ghost entry = out.deep_view();
    if str_eq(node.kind.as_str(), "command") {
        out.push(node.text.clone());
        proof {
            assert(out.deep_view() =~= entry + own_command(node@));
        }
    } else {
        proof {
            assert(out.deep_view() =~= entry + own_command(node@));
        }
    }
    proof {
        lemma_views_of(node.children@);
    }
    let n = node.children.len();
    let mut j: usize = 0;
    while j < n
        invariant
            n == node.children.len(),
            j <= n,
            views_of(node.children@).len() == n,
            forall|i: int| 0 <= i < n ==>
                views_of(node.children@)[i] == node_view(#[trigger] node.children@[i]),
            out.deep_view() == entry + own_command(node@)
                + extract_all(views_of(node.children@).take(j as int)),
        decreases n - j,
    {
        let ghost before = views_of(node.children@).take(j as int);
        extract_into(&node.children[j], out);
        j += 1;
        proof {
            assert(views_of(node.children@).take(j as int) =~= before.push(
                views_of(node.children@)[j - 1],
            ));
            lemma_extract_all_snoc(before, views_of(node.children@)[j - 1]);
        }
    }
    proof {
        assert(views_of(node.children@).take(n as int) =~= views_of(node.children@));
        assert(node@.children == views_of(node.children@));
        assert(out.deep_view() =~= entry + extract_spec(node@));
    }
}

/// Extract the individual command texts from a parsed tree by walking it:
/// every node of the simple-command kind contributes its text, in document
/// order, however deeply it is nested inside other constructs.
pub fn extract_commands(root: &SyntaxNode) -> (out: Vec<String>)
    ensures
        out.deep_view() == extract_spec(root@),
{
    let mut out: Vec<String> = Vec::new();
    extract_into(root, &mut out);
    proof {
        assert(out.deep_view() =~= extract_spec(root@));
    }
    out
}

/// What parsing a source and extracting its command texts yields, as a
/// function of the source alone: `None` exactly when the parse fails.
pub open spec fn commands_of(code: Seq<char>) -> Option<Seq<Seq<char>>> {
    match bash_tree(code) {
        Some(t) => Some(extract_spec(t)),
        None => None,
    }
}

/// The error of [`parse_and_extract_commands`]: the shell grammar could not
/// be loaded, or the source could not be parsed at all.
#[derive(Clone, Copy, Debug, PartialEq, Eq)]
pub struct ParseError;

/// Parse the source as shell and extract the command texts from its tree,
/// in document order. Fails exactly when the parse does; each extracted
/// command is a span of the source, so it is never longer than the source.
pub fn parse_and_extract_commands(code: &str) -> (r: Result<Vec<String>, ParseError>)
    ensures
        r matches Ok(cmds) ==> commands_of(code@) == Some(cmds.deep_view())
            && forall|i: int| 0 <= i < cmds.deep_view().len()
                ==> #[trigger] cmds.deep_view()[i].len() <= code@.len(),
        r is Err ==> commands_of(code@) is None,
{
    match parse_bash(code) {
        Some(root) => {
            let cmds = extract_commands(&root);
            proof {
                lemma_extract_bounded(root@, code@.len());
            }
            Ok(cmds)
        },
        None => Err(ParseError),
    }
}

} // verus!
