//! The library's own model of a parsed shell script: a tree of named syntax
//! nodes, each carrying its grammar kind and the exact source text it spans.
//!
//! The shell grammar itself is an external collaborator: a trusted wrapper
//! turns a source string into this model, and everything that walks the tree
//! afterwards is verified against it.

use vstd::prelude::*;
use tree_sitter::Parser;
use tree_sitter_bash::LANGUAGE;

verus! {

/// One named node of a parsed script: its grammar kind tag, the source text
/// it spans, and its named children in document order.
pub struct SyntaxNode {
    pub kind: String,
    pub text: String,
    pub children: Vec<SyntaxNode>,
}

/// The mathematical shape of a [`SyntaxNode`].
pub ghost struct NodeView {
    pub kind: Seq<char>,
    pub text: Seq<char>,
    pub children: Seq<NodeView>,
}

/// The view of a node: its fields viewed, recursively.
pub open spec fn node_view(n: SyntaxNode) -> NodeView
    decreases n,
{
    NodeView { kind: n.kind@, text: n.text@, children: views_of(n.children@) }
}

/// The views of a sequence of nodes, in order.
pub open spec fn views_of(ns: Seq<SyntaxNode>) -> Seq<NodeView>
    decreases ns,
{
    if ns.len() == 0 {
        Seq::empty()
    } else {
        seq![node_view(ns[0])] + views_of(ns.drop_first())
    }
}

impl View for SyntaxNode {
    type V = NodeView;

    open spec fn view(&self) -> NodeView {
        node_view(*self)
    }
}

pub proof fn lemma_views_of(ns: Seq<SyntaxNode>)
    ensures
        views_of(ns).len() == ns.len(),
        forall|i: int| 0 <= i < ns.len() ==> views_of(ns)[i] == node_view(#[trigger] ns[i]),
    decreases ns,
{
    if ns.len() > 0 {
        lemma_views_of(ns.drop_first());
        assert forall|i: int| 0 <= i < ns.len() implies views_of(ns)[i] == node_view(#[trigger] ns[i]) by {
            if i > 0 {
                assert(ns.drop_first()[i - 1] == ns[i]);
            }
        }
    }
}

/// Every text in the tree has at most `limit` characters.
pub open spec fn texts_bounded(n: NodeView, limit: nat) -> bool
    decreases n,
{
    n.text.len() <= limit && all_texts_bounded(n.children, limit)
}

/// Every text in each of the trees has at most `limit` characters.
pub open spec fn all_texts_bounded(ns: Seq<NodeView>, limit: nat) -> bool
    decreases ns,
{
    ns.len() == 0 || (texts_bounded(ns[0], limit) && all_texts_bounded(ns.drop_first(), limit))
}

/// What parsing a given source as shell yields: `None` when the grammar
/// cannot be loaded or the source cannot be parsed at all, otherwise the tree
/// of named nodes. The parse is a function of the source text alone, so the
/// result only gets a name here; contracts downstream speak of that name.
pub uninterp spec fn bash_tree(code: Seq<char>) -> Option<NodeView>;

/// Parse a source string as shell and convert the resulting syntax tree,
/// named nodes only, into the library's own model.
///
/// Relies on `tree_sitter::Parser::parse` with the `tree_sitter_bash`
/// grammar: parsing is deterministic in the source text, every node spans a
/// byte range of the source on character boundaries (so each node's text is
/// a substring of it, and has no more characters than the source), and
/// `named_child` enumerates the named children in document order. When the
/// grammar cannot be loaded, no language is assigned and `parse` yields no
/// tree.
#[verifier::external_body]
pub fn parse_bash(code: &str) -> (r: Option<SyntaxNode>)
    ensures
        r matches Some(n) ==> bash_tree(code@) == Some(n@) && texts_bounded(n@, code@.len()),
        r is None ==> bash_tree(code@) is None,
{
    let mut p = Parser::new();
    let _ = p.set_language(&LANGUAGE.into());
    let t = p.parse(code, None)?;
    let mut st = vec![(t.root_node(), vec![])];
    while let Some((n, ch)) = st.pop() {
        if let Some(c) = n.named_child(ch.len() as u32) {
            st.push((n, ch)); st.push((c, vec![]));
        } else {
            let d = SyntaxNode { kind: n.kind().to_string(),
                text: code[n.start_byte()..n.end_byte()].to_string(), children: ch };
            match st.last_mut() { Some(t) => t.1.push(d), None => return Some(d) }
        }
    }
    None
}

} // verus!
