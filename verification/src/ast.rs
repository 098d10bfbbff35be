//! The abstract syntax tree: a closed set of node variants, each with the
//! location it came from.

use vstd::prelude::*;
use std::sync::Arc;
use crate::token::{Location, LocationView};

verus! {

/// A node of the syntax tree. Children are shared, never copied.
#[derive(Debug, PartialEq, Eq)]
pub enum AST {
    /// A list of statements: the whole program, or a body in braces.
    Block(Location, Vec<Arc<AST>>),
    /// `let name = value`.
    VarDeclaration(Location, String, Arc<AST>),
    /// A condition, a body, and an optional else-branch: a block or
    /// another `If`.
    If(Location, Arc<AST>, Arc<AST>, Option<Arc<AST>>),
    /// A condition and a body.
    While(Location, Arc<AST>, Arc<AST>),
    /// A loop variable, what it runs over, and a body.
    For(Location, String, Arc<AST>, Arc<AST>),
    /// A function value; `name` is present only for the `def` form.
    Function { loc: Location, name: Option<String>, args: Vec<String>, body: Arc<AST> },
    Return(Location, Arc<AST>),
    Break(Location),
    Continue(Location),
    Assert(Location, Arc<AST>),
    /// A target and the value stored in it.
    Assignment(Location, Arc<AST>, Arc<AST>),
    Equals(Location, Arc<AST>, Arc<AST>),
    NotEquals(Location, Arc<AST>, Arc<AST>),
    LessThan(Location, Arc<AST>, Arc<AST>),
    GreaterThan(Location, Arc<AST>, Arc<AST>),
    LessThanEquals(Location, Arc<AST>, Arc<AST>),
    GreaterThanEquals(Location, Arc<AST>, Arc<AST>),
    And(Location, Arc<AST>, Arc<AST>),
    Or(Location, Arc<AST>, Arc<AST>),
    Plus(Location, Arc<AST>, Arc<AST>),
    Minus(Location, Arc<AST>, Arc<AST>),
    Multiply(Location, Arc<AST>, Arc<AST>),
    Divide(Location, Arc<AST>, Arc<AST>),
    Not(Location, Arc<AST>),
    /// A base and the index of one element.
    Index(Location, Arc<AST>, Arc<AST>),
    /// A base and the optional bounds and step of a range of elements.
    Slice {
        loc: Location,
        lhs: Arc<AST>,
        start: Option<Arc<AST>>,
        end: Option<Arc<AST>>,
        step: Option<Arc<AST>>,
    },
    /// A callee and its arguments.
    Call(Location, Arc<AST>, Vec<Arc<AST>>),
    /// `start..end`.
    Range(Location, Arc<AST>, Arc<AST>),
    Variable(Location, String),
    IntegerLiteral(Location, i64),
    /// A floating-point literal, held as its text: decimal digits, a
    /// point, decimal digits.
    FloatLiteral(Location, String),
    StringLiteral(Location, String),
    BooleanLiteral(Location, bool),
    Nothing(Location),
}

/// The tree that an `AST` stands for.
pub ghost enum AstView {
    Block(LocationView, Seq<AstView>),
    VarDeclaration(LocationView, Seq<char>, Box<AstView>),
    If(LocationView, Box<AstView>, Box<AstView>, Option<Box<AstView>>),
    While(LocationView, Box<AstView>, Box<AstView>),
    For(LocationView, Seq<char>, Box<AstView>, Box<AstView>),
    Function { loc: LocationView, name: Option<Seq<char>>, args: Seq<Seq<char>>, body: Box<AstView> },
    Return(LocationView, Box<AstView>),
    Break(LocationView),
    Continue(LocationView),
    Assert(LocationView, Box<AstView>),
    Assignment(LocationView, Box<AstView>, Box<AstView>),
    Equals(LocationView, Box<AstView>, Box<AstView>),
    NotEquals(LocationView, Box<AstView>, Box<AstView>),
    LessThan(LocationView, Box<AstView>, Box<AstView>),
    GreaterThan(LocationView, Box<AstView>, Box<AstView>),
    LessThanEquals(LocationView, Box<AstView>, Box<AstView>),
    GreaterThanEquals(LocationView, Box<AstView>, Box<AstView>),
    And(LocationView, Box<AstView>, Box<AstView>),
    Or(LocationView, Box<AstView>, Box<AstView>),
    Plus(LocationView, Box<AstView>, Box<AstView>),
    Minus(LocationView, Box<AstView>, Box<AstView>),
    Multiply(LocationView, Box<AstView>, Box<AstView>),
    Divide(LocationView, Box<AstView>, Box<AstView>),
    Not(LocationView, Box<AstView>),
    Index(LocationView, Box<AstView>, Box<AstView>),
    Slice {
        loc: LocationView,
        lhs: Box<AstView>,
        start: Option<Box<AstView>>,
        end: Option<Box<AstView>>,
        step: Option<Box<AstView>>,
    },
    Call(LocationView, Box<AstView>, Seq<AstView>),
    Range(LocationView, Box<AstView>, Box<AstView>),
    Variable(LocationView, Seq<char>),
    IntegerLiteral(LocationView, i64),
    FloatLiteral(LocationView, Seq<char>),
    StringLiteral(LocationView, Seq<char>),
    BooleanLiteral(LocationView, bool),
    Nothing(LocationView),
}

/// The views of a sequence of strings, in order.
pub open spec fn string_views(strings: Seq<String>) -> Seq<Seq<char>> {
    Seq::new(strings.len(), |i: int| strings[i]@)
}

/// The tree of an optional node, boxed.
pub open spec fn boxed(node: Option<AstView>) -> Option<Box<AstView>> {
    match node {
        Some(n) => Some(Box::new(n)),
        None => None,
    }
}

/// The tree that `node` stands for.
pub open spec fn tree_of(node: AST) -> AstView
    decreases node,
{
    match node {
        AST::Block(loc, statements) => AstView::Block(loc@, trees_of(statements@)),
        AST::VarDeclaration(loc, name, value) => AstView::VarDeclaration(
            loc@,
            name@,
            Box::new(tree_of(*value)),
        ),
        AST::If(loc, cond, body, otherwise) => AstView::If(
            loc@,
            Box::new(tree_of(*cond)),
            Box::new(tree_of(*body)),
            match otherwise {
                Some(node) => Some(Box::new(tree_of(*node))),
                None => None,
            },
        ),
        AST::While(loc, cond, body) => AstView::While(
            loc@,
            Box::new(tree_of(*cond)),
            Box::new(tree_of(*body)),
        ),
        AST::For(loc, name, iterable, body) => AstView::For(
            loc@,
            name@,
            Box::new(tree_of(*iterable)),
            Box::new(tree_of(*body)),
        ),
        AST::Function { loc, name, args, body } => AstView::Function {
            loc: loc@,
            name: match name {
                Some(n) => Some(n@),
                None => None,
            },
            args: string_views(args@),
            body: Box::new(tree_of(*body)),
        },
        AST::Return(loc, value) => AstView::Return(loc@, Box::new(tree_of(*value))),
        AST::Break(loc) => AstView::Break(loc@),
        AST::Continue(loc) => AstView::Continue(loc@),
        AST::Assert(loc, cond) => AstView::Assert(loc@, Box::new(tree_of(*cond))),
        AST::Assignment(loc, l, r) => AstView::Assignment(
            loc@,
            Box::new(tree_of(*l)),
            Box::new(tree_of(*r)),
        ),
        AST::Equals(loc, l, r) => AstView::Equals(
            loc@,
            Box::new(tree_of(*l)),
            Box::new(tree_of(*r)),
        ),
        AST::NotEquals(loc, l, r) => AstView::NotEquals(
            loc@,
            Box::new(tree_of(*l)),
            Box::new(tree_of(*r)),
        ),
        AST::LessThan(loc, l, r) => AstView::LessThan(
            loc@,
            Box::new(tree_of(*l)),
            Box::new(tree_of(*r)),
        ),
        AST::GreaterThan(loc, l, r) => AstView::GreaterThan(
            loc@,
            Box::new(tree_of(*l)),
            Box::new(tree_of(*r)),
        ),
        AST::LessThanEquals(loc, l, r) => AstView::LessThanEquals(
            loc@,
            Box::new(tree_of(*l)),
            Box::new(tree_of(*r)),
        ),
        AST::GreaterThanEquals(loc, l, r) => AstView::GreaterThanEquals(
            loc@,
            Box::new(tree_of(*l)),
            Box::new(tree_of(*r)),
        ),
        AST::And(loc, l, r) => AstView::And(loc@, Box::new(tree_of(*l)), Box::new(tree_of(*r))),
        AST::Or(loc, l, r) => AstView::Or(loc@, Box::new(tree_of(*l)), Box::new(tree_of(*r))),
        AST::Plus(loc, l, r) => AstView::Plus(loc@, Box::new(tree_of(*l)), Box::new(tree_of(*r))),
        AST::Minus(loc, l, r) => AstView::Minus(
            loc@,
            Box::new(tree_of(*l)),
            Box::new(tree_of(*r)),
        ),
        AST::Multiply(loc, l, r) => AstView::Multiply(
            loc@,
            Box::new(tree_of(*l)),
            Box::new(tree_of(*r)),
        ),
        AST::Divide(loc, l, r) => AstView::Divide(
            loc@,
            Box::new(tree_of(*l)),
            Box::new(tree_of(*r)),
        ),
        AST::Not(loc, operand) => AstView::Not(loc@, Box::new(tree_of(*operand))),
        AST::Index(loc, base, index) => AstView::Index(
            loc@,
            Box::new(tree_of(*base)),
            Box::new(tree_of(*index)),
        ),
        AST::Slice { loc, lhs, start, end, step } => AstView::Slice {
            loc: loc@,
            lhs: Box::new(tree_of(*lhs)),
            start: match start {
                Some(node) => Some(Box::new(tree_of(*node))),
                None => None,
            },
            end: match end {
                Some(node) => Some(Box::new(tree_of(*node))),
                None => None,
            },
            step: match step {
                Some(node) => Some(Box::new(tree_of(*node))),
                None => None,
            },
        },
        AST::Call(loc, callee, args) => AstView::Call(
            loc@,
            Box::new(tree_of(*callee)),
            trees_of(args@),
        ),
        AST::Range(loc, start, end) => AstView::Range(
            loc@,
            Box::new(tree_of(*start)),
            Box::new(tree_of(*end)),
        ),
        AST::Variable(loc, name) => AstView::Variable(loc@, name@),
        AST::IntegerLiteral(loc, value) => AstView::IntegerLiteral(loc@, value),
        AST::FloatLiteral(loc, text) => AstView::FloatLiteral(loc@, text@),
        AST::StringLiteral(loc, text) => AstView::StringLiteral(loc@, text@),
        AST::BooleanLiteral(loc, value) => AstView::BooleanLiteral(loc@, value),
        AST::Nothing(loc) => AstView::Nothing(loc@),
    }
}

/// The trees of a sequence of nodes, in order.
pub open spec fn trees_of(nodes: Seq<Arc<AST>>) -> Seq<AstView>
    decreases nodes,
{
    Seq::new(
        nodes.len(),
        |i: int|
            if 0 <= i < nodes.len() {
                tree_of(*nodes[i])
            } else {
                AstView::Nothing(arbitrary())
            },
    )
}

impl View for AST {
    type V = AstView;

    open spec fn view(&self) -> AstView {
        tree_of(*self)
    }
}

/// The tree of an optional node.
pub open spec fn optional_tree(node: Option<Arc<AST>>) -> Option<AstView> {
    match node {
        Some(n) => Some(n@),
        None => None,
    }
}

/// Appending a node appends its tree.
pub proof fn lemma_trees_push(nodes: Seq<Arc<AST>>, node: Arc<AST>)
    ensures
        trees_of(nodes.push(node)) == trees_of(nodes).push(node@),
{
    assert(trees_of(nodes.push(node)) =~= trees_of(nodes).push(node@));
}

/// Appending a string appends its view.
pub proof fn lemma_strings_push(strings: Seq<String>, s: String)
    ensures
        string_views(strings.push(s)) == string_views(strings).push(s@),
{
    assert(string_views(strings.push(s)) =~= string_views(strings).push(s@));
}

} // verus!
