//! The syntax tree: a program is a sequence of nodes in source order.
use crate::token::{Token, TokenView};
use vstd::prelude::*;
use vstd::std_specs::cmp::PartialEqSpecImpl;

verus! {

/// A node of the syntax tree.
#[derive(Debug)]
pub enum Node {
    /// `let <name> = <expression>;`, with the identifier token that the
    /// statement binds. The expression is not kept.
    LetStatement(Option<Token>),
    /// A statement of another form. The parser does not produce it yet.
    Statement(Token),
    /// An expression. The parser does not produce it yet.
    Expression(Token),
}

/// The mathematical value of a [`Node`].
pub enum NodeView {
    LetStatement(Option<TokenView>),
    Statement(TokenView),
    Expression(TokenView),
}

impl View for Node {
    type V = NodeView;

    open spec fn view(&self) -> NodeView {
        match self {
            Node::LetStatement(Some(name)) => NodeView::LetStatement(Some(name@)),
            Node::LetStatement(None) => NodeView::LetStatement(None),
            Node::Statement(token) => NodeView::Statement(token@),
            Node::Expression(token) => NodeView::Expression(token@),
        }
    }
}

impl Clone for Node {
    /// The copy is the same node.
    fn clone(&self) -> (copy: Self)
        ensures
            copy == *self,
    {
        match self {
            Node::LetStatement(Some(name)) => Node::LetStatement(Some(name.clone())),
            Node::LetStatement(None) => Node::LetStatement(None),
            Node::Statement(token) => Node::Statement(token.clone()),
            Node::Expression(token) => Node::Expression(token.clone()),
        }
    }
}

impl PartialEq for Node {
    fn eq(&self, other: &Self) -> (same: bool) {
        match (self, other) {
            (Node::LetStatement(Some(a)), Node::LetStatement(Some(b))) => *a == *b,
            (Node::LetStatement(None), Node::LetStatement(None)) => true,
            (Node::Statement(a), Node::Statement(b)) => *a == *b,
            (Node::Expression(a), Node::Expression(b)) => *a == *b,
            _ => false,
        }
    }
}

impl PartialEqSpecImpl for Node {
    open spec fn obeys_eq_spec() -> bool {
        true
    }

    /// Two nodes are equal when they are the same variant with equal tokens.
    open spec fn eq_spec(&self, other: &Self) -> bool {
        self@ == other@
    }
}

/// The values of the nodes of a sequence, in order.
pub open spec fn node_views(nodes: Seq<Node>) -> Seq<NodeView> {
    nodes.map_values(|node: Node| node@)
}

/// A program: its top-level nodes, in the order of the source.
#[derive(Debug)]
pub struct Program {
    pub nodes: Vec<Node>,
}

impl View for Program {
    type V = Seq<NodeView>;

    open spec fn view(&self) -> Seq<NodeView> {
        node_views(self.nodes@)
    }
}

impl Clone for Program {
    /// The copy holds the same nodes in the same order.
    fn clone(&self) -> (copy: Self)
        ensures
            copy@ == self@,
    {
        let mut nodes: Vec<Node> = Vec::new();
        let mut i: usize = 0;
        while i < self.nodes.len()
            invariant
                i <= self.nodes.len(),
                nodes.len() == i,
                forall|j: int| 0 <= j < i ==> nodes[j] == self.nodes[j],
            decreases self.nodes.len() - i,
        {
            nodes.push(self.nodes[i].clone());
            i += 1;
        }
        assert(node_views(nodes@) =~= node_views(self.nodes@));
        Program { nodes }
    }
}

} // verus!
