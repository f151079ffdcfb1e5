use vstd::prelude::*;

use crate::text::same_text;
use crate::token::{Token, TokenView};

verus! {

/// A parsed expression, with the end-of-input token that closed it.
pub struct SyntaxTree {
    pub root: Node,
    pub eof: Token,
}

/// A node of the syntax tree; each node owns its children.
pub enum Node {
    Function(FunctionNode),
    Unary(UnaryNode),
    Number(NumberNode),
    Binary(BinaryNode),
    Enclosed(EnclosedNode),
}

pub struct BinaryNode {
    pub token: Token,
    pub left: Box<Node>,
    pub right: Box<Node>,
}

/// An expression between `(` and `)`, or between two `|`.
pub struct EnclosedNode {
    pub left: Token,
    pub expression: Box<Node>,
    pub right: Token,
}

/// A numeric literal; its value is the decimal number that the token's text spells.
pub struct NumberNode {
    pub token: Token,
}

pub struct UnaryNode {
    pub token: Token,
    pub expression: Box<Node>,
}

pub struct FunctionNode {
    pub kind: FunctionKind,
    pub token: Token,
    pub args: Vec<Node>,
}

/// The named functions, and `BadValue` for a name that is none of them.
#[derive(Debug, Clone, Copy, PartialEq, Eq, Structural)]
pub enum FunctionKind {
    Cos,
    Sin,
    Tan,
    Sinh,
    Cosh,
    Tanh,
    Sqrt,
    Ln,
    Pow,
    Root,
    Log,
    BadValue,
}

/// The mathematical view of a node.
pub enum NodeView {
    Number(TokenView),
    Unary(TokenView, Box<NodeView>),
    Binary(TokenView, Box<NodeView>, Box<NodeView>),
    Enclosed(TokenView, Box<NodeView>, TokenView),
    Function(FunctionKind, TokenView, Seq<NodeView>),
}

/// The mathematical view of a syntax tree.
pub struct SyntaxTreeView {
    pub root: NodeView,
    pub eof: TokenView,
}

pub open spec fn node_view(n: Node) -> NodeView
    decreases n,
{
    match n {
        Node::Number(x) => NodeView::Number(x.token@),
        Node::Unary(x) => NodeView::Unary(x.token@, Box::new(node_view(*x.expression))),
        Node::Binary(x) => NodeView::Binary(
            x.token@,
            Box::new(node_view(*x.left)),
            Box::new(node_view(*x.right)),
        ),
        Node::Enclosed(x) => NodeView::Enclosed(
            x.left@,
            Box::new(node_view(*x.expression)),
            x.right@,
        ),
        Node::Function(x) => NodeView::Function(x.kind, x.token@, nodes_view(x.args@)),
    }
}

pub open spec fn nodes_view(s: Seq<Node>) -> Seq<NodeView>
    decreases s,
{
    if s.len() == 0 {
        seq![]
    } else {
        seq![node_view(s[0])] + nodes_view(s.subrange(1, s.len() as int))
    }
}

impl View for Node {
    type V = NodeView;

    open spec fn view(&self) -> NodeView {
        node_view(*self)
    }
}

impl View for SyntaxTree {
    type V = SyntaxTreeView;

    open spec fn view(&self) -> SyntaxTreeView {
        SyntaxTreeView { root: self.root@, eof: self.eof@ }
    }
}

impl SyntaxTree {
    pub fn new(root: Node, eof: Token) -> (r: Self)
        ensures
            r@ == (SyntaxTreeView { root: root@, eof: eof@ }),
    {
        SyntaxTree { root, eof }
    }
}

impl BinaryNode {
    pub fn new(token: Token, left: Node, right: Node) -> (r: Self)
        ensures
            r.token@ == token@,
            r.left@ == left@,
            r.right@ == right@,
    {
        BinaryNode { token, left: Box::new(left), right: Box::new(right) }
    }
}

impl EnclosedNode {
    pub fn new(left: Token, expression: Node, right: Token) -> (r: Self)
        ensures
            r.left@ == left@,
            r.expression@ == expression@,
            r.right@ == right@,
    {
        EnclosedNode { left, expression: Box::new(expression), right }
    }
}

impl NumberNode {
    pub fn new(token: Token) -> (r: Self)
        ensures
            r.token@ == token@,
    {
        NumberNode { token }
    }
}

impl UnaryNode {
    pub fn new(token: Token, expression: Node) -> (r: Self)
        ensures
            r.token@ == token@,
            r.expression@ == expression@,
    {
        UnaryNode { token, expression: Box::new(expression) }
    }
}

impl FunctionNode {
    pub fn new(kind: FunctionKind, token: Token, args: Vec<Node>) -> (r: Self)
        ensures
            r.kind == kind,
            r.token@ == token@,
            nodes_view(r.args@) == nodes_view(args@),
    {
        FunctionNode { kind, token, args }
    }
}

/// The function that a name denotes.
pub open spec fn function_kind_of(name: Seq<char>) -> FunctionKind {
    if name == "sin"@ {
        FunctionKind::Sin
    } else if name == "cos"@ {
        FunctionKind::Cos
    } else if name == "tan"@ {
        FunctionKind::Tan
    } else if name == "sinh"@ {
        FunctionKind::Sinh
    } else if name == "cosh"@ {
        FunctionKind::Cosh
    } else if name == "tanh"@ {
        FunctionKind::Tanh
    } else if name == "sqrt"@ {
        FunctionKind::Sqrt
    } else if name == "ln"@ {
        FunctionKind::Ln
    } else if name == "pow"@ {
        FunctionKind::Pow
    } else if name == "root"@ {
        FunctionKind::Root
    } else if name == "log"@ {
        FunctionKind::Log
    } else {
        FunctionKind::BadValue
    }
}

/// The number of arguments a function takes; 0 for an unknown name.
pub open spec fn arity(kind: FunctionKind) -> u8 {
    match kind {
        FunctionKind::Sin | FunctionKind::Cos | FunctionKind::Tan | FunctionKind::Sinh
        | FunctionKind::Cosh | FunctionKind::Tanh | FunctionKind::Sqrt | FunctionKind::Ln => 1,
        FunctionKind::Pow | FunctionKind::Root | FunctionKind::Log => 2,
        FunctionKind::BadValue => 0,
    }
}

impl FunctionKind {
    pub fn from(value: &str) -> (r: Self)
        ensures
            r == function_kind_of(value@),
    {
        if same_text(value, "sin") {
            FunctionKind::Sin
        } else if same_text(value, "cos") {
            FunctionKind::Cos
        } else if same_text(value, "tan") {
            FunctionKind::Tan
        } else if same_text(value, "sinh") {
            FunctionKind::Sinh
        } else if same_text(value, "cosh") {
            FunctionKind::Cosh
        } else if same_text(value, "tanh") {
            FunctionKind::Tanh
        } else if same_text(value, "sqrt") {
            FunctionKind::Sqrt
        } else if same_text(value, "ln") {
            FunctionKind::Ln
        } else if same_text(value, "pow") {
            FunctionKind::Pow
        } else if same_text(value, "root") {
            FunctionKind::Root
        } else if same_text(value, "log") {
            FunctionKind::Log
        } else {
            FunctionKind::BadValue
        }
    }

    pub fn get_args_count(&self) -> (r: u8)
        ensures
            r == arity(*self),
    {
        match self {
            FunctionKind::Sin | FunctionKind::Cos | FunctionKind::Tan | FunctionKind::Sinh
            | FunctionKind::Cosh | FunctionKind::Tanh | FunctionKind::Sqrt | FunctionKind::Ln => 1,
            FunctionKind::Pow | FunctionKind::Root | FunctionKind::Log => 2,
            FunctionKind::BadValue => 0,
        }
    }
}

} // verus!
