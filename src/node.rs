use vstd::prelude::*;
use crate::token::Token;

verus! {

/// The grammar rule (or lowering construct) that a branch node stands for.
#[derive(Clone, Copy, Debug, PartialEq, Eq, Structural)]
pub enum Kind {
    Root,
    Block,
    Constraint,
    Select,
    Insert,
    ColumnDefine,
    MathExpression,
    Word,
    Number,
    Punctuation,
    Symbol,
    Text,
    Identifier,
    Whitespace,
    FloatingPoint,
    Quantity,
    Constant,
    Empty,
    SelectAll,
    Subscript,
    SubscriptIndex,
    DotIndex,
    Index,
    Data,
    Table,
    Binding,
    Column,
    TableRow,
    Attribute,
    TableHeader,
    AnonymousTable,
    InlineTable,
    Comment,
    AddRow,
    SetData,
    VariableDefine,
    TableDefine,
    DataWatch,
    Statement,
    ParentheticalExpression,
    Negation,
    Function,
    L1Infix,
    L2Infix,
    L3Infix,
    L1,
    L2,
    L3,
    L4,
    Comparator,
    LessThanEqual,
    GreaterThanEqual,
    Equal,
    NotEqual,
    LessThan,
    GreaterThan,
    FilterExpression,
    StateMachine,
    Transitions,
    Transition,
    And,
    Or,
    LogicOperator,
    LogicExpression,
    Range,
    String,
    Expression,
    Title,
    Subtitle,
    InlineCode,
    ParagraphText,
    Paragraph,
    UnorderedList,
    ListItem,
    FormattedText,
    CodeBlock,
    InlineMechCode,
    MechCodeBlock,
    Section,
    Body,
    Fragment,
    Program,
}

/// A syntax tree node.
///
/// The parser builds only `Branch` and `Token` nodes, and keeps every byte it
/// consumes as a `Token` leaf, so the text of a parsed tree is exactly the
/// consumed source. `Table`, `Number` and `InfixOperation` carry resolved
/// payloads (a hashed table key, a column digit, an operator) for lowering.
#[derive(Debug, PartialEq)]
pub enum Node {
    Branch { kind: Kind, children: Vec<Node> },
    Token { token: Token, byte: u8 },
    Table { id: u64, children: Vec<Node> },
    Number { value: u64 },
    InfixOperation { token: Token },
}

/// The shape of a parsed tree: branches with their kinds, leaves with their
/// tokens and bytes.
pub enum Tree {
    Branch(Kind, Seq<Tree>),
    Leaf(Token, u8),
    Other,
}

pub open spec fn tree_of(n: Node) -> Tree
    decreases n,
{
    match n {
        Node::Branch { kind, children } => Tree::Branch(kind, trees_of(children@)),
        Node::Token { token, byte } => Tree::Leaf(token, byte),
        _ => Tree::Other,
    }
}

pub open spec fn trees_of(ns: Seq<Node>) -> Seq<Tree>
    decreases ns,
{
    if ns.len() == 0 {
        Seq::empty()
    } else {
        trees_of(ns.subrange(0, ns.len() - 1)).push(tree_of(ns[ns.len() - 1]))
    }
}

pub proof fn lemma_trees_of_push(ns: Seq<Node>, n: Node)
    ensures
        trees_of(ns.push(n)) == trees_of(ns).push(tree_of(n)),
{
    assert(ns.push(n).subrange(0, ns.len() as int) =~= ns);
}

/// The source bytes that a node covers, leaves in order.
pub open spec fn text_of(n: Node) -> Seq<u8>
    decreases n,
{
    match n {
        Node::Branch { children, .. } => text_of_seq(children@),
        Node::Token { byte, .. } => seq![byte],
        Node::Table { children, .. } => text_of_seq(children@),
        _ => Seq::empty(),
    }
}

/// The concatenated text of a sequence of nodes.
pub open spec fn text_of_seq(ns: Seq<Node>) -> Seq<u8>
    decreases ns,
{
    if ns.len() == 0 {
        Seq::empty()
    } else {
        text_of_seq(ns.subrange(0, ns.len() - 1)) + text_of(ns[ns.len() - 1])
    }
}

pub open spec fn kind_of(n: Node) -> Option<Kind> {
    match n {
        Node::Branch { kind, .. } => Some(kind),
        _ => None,
    }
}

pub proof fn lemma_text_of_push(ns: Seq<Node>, n: Node)
    ensures
        text_of_seq(ns.push(n)) == text_of_seq(ns) + text_of(n),
{
    assert(ns.push(n).subrange(0, ns.len() as int) =~= ns);
}

pub open spec fn first_child_spec(node: Node) -> Option<Node> {
    match node {
        Node::Branch { kind: Kind::Select, children } => if children@.len() > 0 {
            Some(children@[0])
        } else {
            None
        },
        _ => match get_children_spec(node) {
            Some(ch) => if ch.len() > 0 { Some(ch[0]) } else { None },
            None => None,
        },
    }
}

/// The first child of a table reference, a selection, a block or a root.
pub fn get_first_child(node: &Node) -> (r: Option<&Node>)
    ensures
        (match r {
            Some(c) => Some(*c),
            None => None,
        }) == first_child_spec(*node),
{
    if let Node::Branch { kind: Kind::Select, children } = node {
        return if children.len() > 0 {
            Some(&children[0])
        } else {
            None
        };
    }
    match get_children(node) {
        Some(children) => {
            if children.len() > 0 {
                Some(&children[0])
            } else {
                None
            }
        },
        None => None,
    }
}

pub open spec fn get_children_spec(node: Node) -> Option<Seq<Node>> {
    match node {
        Node::Table { children, .. } => Some(children@),
        Node::Branch { kind, children } => if kind == Kind::Block || kind == Kind::Root {
            Some(children@)
        } else {
            None
        },
        _ => None,
    }
}

/// The children of a table reference, a block or a root.
pub fn get_children(node: &Node) -> (r: Option<&Vec<Node>>)
    ensures
        match r {
            Some(v) => get_children_spec(*node) == Some(v@),
            None => get_children_spec(*node) is None,
        },
{
    match node {
        Node::Table { children, .. } => Some(children),
        Node::Branch { kind, children } => {
            if *kind == Kind::Block || *kind == Kind::Root {
                Some(children)
            } else {
                None
            }
        },
        _ => None,
    }
}

/// The hashed key of a table reference.
pub fn get_id(node: &Node) -> (r: Option<u64>)
    ensures
        r == (match *node {
            Node::Table { id, .. } => Some(id),
            _ => None,
        }),
{
    match node {
        Node::Table { id, .. } => Some(*id),
        _ => None,
    }
}

/// The payload of a number leaf.
pub fn get_value(node: &Node) -> (r: Option<u64>)
    ensures
        r == (match *node {
            Node::Number { value } => Some(value),
            _ => None,
        }),
{
    match node {
        Node::Number { value } => Some(*value),
        _ => None,
    }
}

} // verus!
