//! The compiled form of a template: literals, expressions, conditionals and
//! loops, together with the mathematical values the contracts speak about.

use vstd::prelude::*;
use vstd::string::StringSliceAdditionalSpecFns;

verus! {

/// The four delimiter strings of the template language.
#[derive(Debug, Clone)]
pub struct Syntax {
    pub block_start: Vec<u8>,
    pub block_end: Vec<u8>,
    pub expr_start: Vec<u8>,
    pub expr_end: Vec<u8>,
}

/// What the contracts see of a [`Syntax`].
pub struct SyntaxView {
    pub block_start: Seq<u8>,
    pub block_end: Seq<u8>,
    pub expr_start: Seq<u8>,
    pub expr_end: Seq<u8>,
}

impl View for Syntax {
    type V = SyntaxView;

    open spec fn view(&self) -> SyntaxView {
        SyntaxView {
            block_start: self.block_start@,
            block_end: self.block_end@,
            expr_start: self.expr_start@,
            expr_end: self.expr_end@,
        }
    }
}

impl SyntaxView {
    /// Both opening delimiters have the two bytes by which literal text is
    /// told apart from a tag.
    pub open spec fn wf(self) -> bool {
        self.block_start.len() >= 2 && self.expr_start.len() >= 2
    }

    /// The delimiters `{%`, `%}`, `{{` and `}}`.
    pub open spec fn standard() -> SyntaxView {
        SyntaxView {
            block_start: "{%".spec_bytes(),
            block_end: "%}".spec_bytes(),
            expr_start: "{{".spec_bytes(),
            expr_end: "}}".spec_bytes(),
        }
    }
}

/// The standard delimiters have two bytes each.
pub proof fn lemma_standard_syntax()
    ensures
        SyntaxView::standard().wf(),
        SyntaxView::standard().block_start == seq![0x7bu8, 0x25u8],
        SyntaxView::standard().block_end == seq![0x25u8, 0x7du8],
        SyntaxView::standard().expr_start == seq![0x7bu8, 0x7bu8],
        SyntaxView::standard().expr_end == seq![0x7du8, 0x7du8],
{
    reveal_strlit("{%");
    reveal_strlit("%}");
    reveal_strlit("{{");
    reveal_strlit("}}");
    vstd::utf8::is_ascii_chars_encode_utf8("{%"@);
    vstd::utf8::is_ascii_chars_encode_utf8("%}"@);
    vstd::utf8::is_ascii_chars_encode_utf8("{{"@);
    vstd::utf8::is_ascii_chars_encode_utf8("}}"@);
    assert("{%".spec_bytes() =~= seq![0x7bu8, 0x25u8]);
    assert("%}".spec_bytes() =~= seq![0x25u8, 0x7du8]);
    assert("{{".spec_bytes() =~= seq![0x7bu8, 0x7bu8]);
    assert("}}".spec_bytes() =~= seq![0x7du8, 0x7du8]);
}

impl Syntax {
    /// Tells whether both opening delimiters have at least two bytes, as the
    /// parser requires of its syntax.
    pub fn well_formed(&self) -> (b: bool)
        ensures
            b == self@.wf(),
    {
        self.block_start.len() >= 2 && self.expr_start.len() >= 2
    }
}

impl Default for Syntax {
    fn default() -> (s: Self)
        ensures
            s@ == SyntaxView::standard(),
            s@.wf(),
    {
        proof {
            lemma_standard_syntax();
        }
        Syntax {
            block_start: crate::text::copy("{%".as_bytes()),
            block_end: crate::text::copy("%}".as_bytes()),
            expr_start: crate::text::copy("{{".as_bytes()),
            expr_end: crate::text::copy("}}".as_bytes()),
        }
    }
}

/// The two whitespace-control marks of a tag: one for each side.
#[derive(Clone, Copy, Debug, PartialEq)]
pub struct WS(pub bool, pub bool);

/// An expression inside a tag.
#[derive(Debug, PartialEq)]
pub enum Expr<'a> {
    BoolLit(&'a [u8]),
    NumLit(&'a [u8]),
    StrLit(&'a [u8]),
    CharLit(&'a [u8]),
    Var(&'a [u8]),
    Filter(&'a [u8], Vec<Expr<'a>>),
    Unary(&'a [u8], Box<Expr<'a>>),
    BinOp(&'a [u8], Box<Expr<'a>>, Box<Expr<'a>>),
    Range(&'a [u8], Option<Box<Expr<'a>>>, Option<Box<Expr<'a>>>),
}

/// What the contracts see of an [`Expr`].
pub enum ExprView {
    BoolLit(Seq<u8>),
    NumLit(Seq<u8>),
    StrLit(Seq<u8>),
    CharLit(Seq<u8>),
    Var(Seq<u8>),
    Filter(Seq<u8>, Seq<ExprView>),
    Unary(Seq<u8>, Box<ExprView>),
    BinOp(Seq<u8>, Box<ExprView>, Box<ExprView>),
    Range(Seq<u8>, Option<Box<ExprView>>, Option<Box<ExprView>>),
}

/// The value of an expression, written out over all of its parts.
pub open spec fn expr_view(e: Expr) -> ExprView
    decreases e,
{
    match e {
        Expr::BoolLit(s) => ExprView::BoolLit(s@),
        Expr::NumLit(s) => ExprView::NumLit(s@),
        Expr::StrLit(s) => ExprView::StrLit(s@),
        Expr::CharLit(s) => ExprView::CharLit(s@),
        Expr::Var(s) => ExprView::Var(s@),
        Expr::Filter(name, args) => ExprView::Filter(
            name@,
            Seq::new(
                args@.len(),
                |i: int|
                    if 0 <= i < args@.len() {
                        expr_view(args@[i])
                    } else {
                        ExprView::BoolLit(Seq::empty())
                    },
            ),
        ),
        Expr::Unary(op, inner) => ExprView::Unary(op@, Box::new(expr_view(*inner))),
        Expr::BinOp(op, left, right) => ExprView::BinOp(
            op@,
            Box::new(expr_view(*left)),
            Box::new(expr_view(*right)),
        ),
        Expr::Range(op, lo, hi) => ExprView::Range(
            op@,
            match lo {
                Some(e) => Some(Box::new(expr_view(*e))),
                None => None,
            },
            match hi {
                Some(e) => Some(Box::new(expr_view(*e))),
                None => None,
            },
        ),
    }
}

impl<'a> View for Expr<'a> {
    type V = ExprView;

    open spec fn view(&self) -> ExprView {
        expr_view(*self)
    }
}

/// The target of a loop: one name, or a tuple of names.
#[derive(Debug, PartialEq)]
pub enum Target<'a> {
    Name(&'a [u8]),
    Tuple(Vec<&'a [u8]>),
}

/// What the contracts see of a [`Target`].
pub enum TargetView {
    Name(Seq<u8>),
    Tuple(Seq<Seq<u8>>),
}

impl<'a> View for Target<'a> {
    type V = TargetView;

    open spec fn view(&self) -> TargetView {
        match self {
            Target::Name(n) => TargetView::Name(n@),
            Target::Tuple(ns) => TargetView::Tuple(Seq::new(ns@.len(), |i: int| ns@[i]@)),
        }
    }
}

/// One element of a compiled template.
#[derive(Debug, PartialEq)]
pub enum Node<'a> {
    /// Literal text, parted into leading whitespace, body and trailing
    /// whitespace.
    Lit(&'a [u8], &'a [u8], &'a [u8]),
    /// An expression tag.
    Expr(WS, Expr<'a>),
    /// A conditional: its branches in order, and the marks of the closing tag.
    /// The first branch holds the `if` condition; a branch without a
    /// condition is an `else`.
    Cond(Vec<(WS, Option<Expr<'a>>, Vec<Node<'a>>)>, WS),
    /// A loop: the marks of the opening tag, the target, the expression
    /// iterated over, the body, and the marks of the closing tag.
    Loop(WS, Target<'a>, Expr<'a>, Vec<Node<'a>>, WS),
}

/// One branch of a conditional.
pub type Cond<'a> = (WS, Option<Expr<'a>>, Vec<Node<'a>>);

/// What the contracts see of a [`Node`].
pub enum NodeView {
    Lit(Seq<u8>, Seq<u8>, Seq<u8>),
    Expr(WS, ExprView),
    Cond(Seq<(WS, Option<ExprView>, Seq<NodeView>)>, WS),
    Loop(WS, TargetView, ExprView, Seq<NodeView>, WS),
}

/// The value of a node, written out over all of its parts.
pub open spec fn node_view(n: Node) -> NodeView
    decreases n,
{
    match n {
        Node::Lit(l, b, r) => NodeView::Lit(l@, b@, r@),
        Node::Expr(ws, e) => NodeView::Expr(ws, e@),
        Node::Cond(branches, ws) => NodeView::Cond(
            Seq::new(
                branches@.len(),
                |i: int|
                    if 0 <= i < branches@.len() {
                        (
                            branches@[i].0,
                            match branches@[i].1 {
                                Some(e) => Some(e@),
                                None => None,
                            },
                            Seq::new(
                                branches@[i].2@.len(),
                                |j: int|
                                    if 0 <= j < branches@[i].2@.len() {
                                        node_view(branches@[i].2@[j])
                                    } else {
                                        NodeView::Lit(Seq::empty(), Seq::empty(), Seq::empty())
                                    },
                            ),
                        )
                    } else {
                        (WS(false, false), None, Seq::empty())
                    },
            ),
            ws,
        ),
        Node::Loop(open, target, iter, body, close) => NodeView::Loop(
            open,
            target@,
            iter@,
            Seq::new(
                body@.len(),
                |j: int|
                    if 0 <= j < body@.len() {
                        node_view(body@[j])
                    } else {
                        NodeView::Lit(Seq::empty(), Seq::empty(), Seq::empty())
                    },
            ),
            close,
        ),
    }
}

impl<'a> View for Node<'a> {
    type V = NodeView;

    open spec fn view(&self) -> NodeView {
        node_view(*self)
    }
}

/// The values of a list of nodes, in order.
pub open spec fn nodes_view(ns: Seq<Node>) -> Seq<NodeView> {
    Seq::new(ns.len(), |i: int| ns[i]@)
}

/// The values of a list of expressions, in order.
pub open spec fn exprs_view(es: Seq<Expr>) -> Seq<ExprView> {
    Seq::new(es.len(), |i: int| es[i]@)
}

} // verus!
