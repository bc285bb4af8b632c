//! Copies of the values that hold other values of their own kind, with
//! what a copy keeps: `Clone` for expressions, targets, nodes and
//! templates.

use vstd::prelude::*;
use crate::app::{AppConfig, TokenExpr, VarExpr};
use crate::ast::{exprs_view, nodes_view, Cond, Expr, Node, Target};
use crate::expr::lemma_filter_view;
use crate::parser::{
    cond_view, conds_view, lemma_cond_node_view, lemma_loop_node_view, names_view,
};
use crate::text::copy;

verus! {

/// Copies an expression.
pub fn copy_expr<'a>(e: &Expr<'a>) -> (r: Expr<'a>)
    ensures
        r@ == e@,
    decreases e,
{
    match e {
        Expr::BoolLit(s) => Expr::BoolLit(*s),
        Expr::NumLit(s) => Expr::NumLit(*s),
        Expr::StrLit(s) => Expr::StrLit(*s),
        Expr::CharLit(s) => Expr::CharLit(*s),
        Expr::Var(s) => Expr::Var(*s),
        Expr::Filter(name, args) => {
            let copied = copy_exprs(args);
            proof {
                lemma_filter_view(name, *args);
                lemma_filter_view(name, copied);
            }
            Expr::Filter(*name, copied)
        },
        Expr::Unary(op, inner) => Expr::Unary(*op, Box::new(copy_expr(inner))),
        Expr::BinOp(op, left, right) => Expr::BinOp(
            *op,
            Box::new(copy_expr(left)),
            Box::new(copy_expr(right)),
        ),
        Expr::Range(op, from, to) => {
            let from = match from {
                Some(b) => Some(Box::new(copy_expr(b))),
                None => None,
            };
            let to = match to {
                Some(b) => Some(Box::new(copy_expr(b))),
                None => None,
            };
            Expr::Range(*op, from, to)
        },
    }
}

/// Copies a list of expressions.
pub fn copy_exprs<'a>(es: &Vec<Expr<'a>>) -> (r: Vec<Expr<'a>>)
    ensures
        exprs_view(r@) == exprs_view(es@),
    decreases es,
{
    let mut out: Vec<Expr<'a>> = Vec::new();
    let mut i: usize = 0;
    assert(exprs_view(out@) =~= exprs_view(es@).take(0));
    while i < es.len()
        invariant
            i <= es@.len(),
            exprs_view(out@) == exprs_view(es@).take(i as int),
        decreases es@.len() - i,
    {
        let ghost before = exprs_view(out@);
        let e = copy_expr(&es[i]);
        let ghost this = e@;
        out.push(e);
        assert(exprs_view(out@) =~= before.push(this));
        assert(exprs_view(es@).take(i + 1) =~= exprs_view(es@).take(i as int).push(this));
        i += 1;
    }
    assert(exprs_view(es@).take(es@.len() as int) =~= exprs_view(es@));
    out
}

impl<'a> Clone for Expr<'a> {
    fn clone(&self) -> (r: Self)
        ensures
            r@ == self@,
    {
        copy_expr(self)
    }
}

/// Copies a loop target.
pub fn copy_target<'a>(t: &Target<'a>) -> (r: Target<'a>)
    ensures
        r@ == t@,
{
    match t {
        Target::Name(n) => Target::Name(*n),
        Target::Tuple(ns) => {
            let mut out: Vec<&'a [u8]> = Vec::new();
            let mut i: usize = 0;
            assert(names_view(out@) =~= names_view(ns@).take(0));
            while i < ns.len()
                invariant
                    i <= ns@.len(),
                    names_view(out@) == names_view(ns@).take(i as int),
                decreases ns@.len() - i,
            {
                let ghost before = names_view(out@);
                let ghost this = ns@[i as int]@;
                out.push(ns[i]);
                assert(names_view(out@) =~= before.push(this));
                assert(names_view(ns@).take(i + 1) =~= names_view(ns@).take(i as int).push(this));
                i += 1;
            }
            assert(names_view(ns@).take(ns@.len() as int) =~= names_view(ns@));
            let r = Target::Tuple(out);
            assert(r@ == t@) by {
                match (r@, t@) {
                    (crate::ast::TargetView::Tuple(a), crate::ast::TargetView::Tuple(b)) => {
                        assert(a =~= names_view(out@));
                        assert(b =~= names_view(ns@));
                    },
                    _ => {},
                }
            }
            r
        },
    }
}

impl<'a> Clone for Target<'a> {
    fn clone(&self) -> (r: Self)
        ensures
            r@ == self@,
    {
        copy_target(self)
    }
}

/// Copies a node.
pub fn copy_node<'a>(n: &Node<'a>) -> (r: Node<'a>)
    ensures
        r@ == n@,
    decreases n,
{
    match n {
        Node::Lit(l, b, r) => Node::Lit(*l, *b, *r),
        Node::Expr(ws, e) => Node::Expr(*ws, copy_expr(e)),
        Node::Cond(branches, ws) => {
            let copied = copy_conds(branches);
            proof {
                lemma_cond_node_view(*branches, *ws);
                lemma_cond_node_view(copied, *ws);
            }
            Node::Cond(copied, *ws)
        },
        Node::Loop(open, target, iter, body, close) => {
            let target2 = copy_target(target);
            let iter2 = copy_expr(iter);
            let body2 = copy_nodes(body);
            proof {
                lemma_loop_node_view(*open, *target, *iter, *body, *close);
                lemma_loop_node_view(*open, target2, iter2, body2, *close);
            }
            Node::Loop(*open, target2, iter2, body2, *close)
        },
    }
}

/// Copies a list of nodes.
pub fn copy_nodes<'a>(ns: &Vec<Node<'a>>) -> (r: Vec<Node<'a>>)
    ensures
        nodes_view(r@) == nodes_view(ns@),
    decreases ns,
{
    let mut out: Vec<Node<'a>> = Vec::new();
    let mut i: usize = 0;
    assert(nodes_view(out@) =~= nodes_view(ns@).take(0));
    while i < ns.len()
        invariant
            i <= ns@.len(),
            nodes_view(out@) == nodes_view(ns@).take(i as int),
        decreases ns@.len() - i,
    {
        let ghost before = nodes_view(out@);
        let n = copy_node(&ns[i]);
        let ghost this = n@;
        out.push(n);
        assert(nodes_view(out@) =~= before.push(this));
        assert(nodes_view(ns@).take(i + 1) =~= nodes_view(ns@).take(i as int).push(this));
        i += 1;
    }
    assert(nodes_view(ns@).take(ns@.len() as int) =~= nodes_view(ns@));
    out
}

/// Copies the branches of a conditional.
pub fn copy_conds<'a>(cs: &Vec<Cond<'a>>) -> (r: Vec<Cond<'a>>)
    ensures
        conds_view(r@) == conds_view(cs@),
    decreases cs,
{
    let mut out: Vec<Cond<'a>> = Vec::new();
    let mut i: usize = 0;
    assert(conds_view(out@) =~= conds_view(cs@).take(0));
    while i < cs.len()
        invariant
            i <= cs@.len(),
            conds_view(out@) == conds_view(cs@).take(i as int),
        decreases cs@.len() - i,
    {
        let ghost before = conds_view(out@);
        let cond = match &cs[i].1 {
            Some(e) => Some(copy_expr(e)),
            None => None,
        };
        let c: Cond<'a> = (cs[i].0, cond, copy_nodes(&cs[i].2));
        let ghost this = cond_view(c);
        assert(this == cond_view(cs@[i as int]));
        out.push(c);
        assert(conds_view(out@) =~= before.push(this));
        assert(conds_view(cs@).take(i + 1) =~= conds_view(cs@).take(i as int).push(this));
        i += 1;
    }
    assert(conds_view(cs@).take(cs@.len() as int) =~= conds_view(cs@));
    out
}

impl<'a> Clone for Node<'a> {
    fn clone(&self) -> (r: Self)
        ensures
            r@ == self@,
    {
        copy_node(self)
    }
}

/// A copy of a text that may be missing.
fn copy_option(a: &Option<Vec<u8>>) -> (r: Option<Vec<u8>>)
    ensures
        crate::db::text_option(r) == crate::db::text_option(*a),
{
    match a {
        Some(v) => Some(copy(v.as_slice())),
        None => None,
    }
}

/// Two of the things that a template may ask for on a variable hold the
/// same.
pub open spec fn var_alike(a: VarExpr, b: VarExpr) -> bool
    decreases a,
{
    match (a, b) {
        (VarExpr::Regex(x), VarExpr::Regex(y)) => x@ == y@,
        (VarExpr::If(t), VarExpr::If(u)) => template_alike(t, u),
        _ => false,
    }
}

/// Two lists of names and of what is asked for on them hold the same.
pub open spec fn vars_alike(a: Seq<(Vec<u8>, VarExpr)>, b: Seq<(Vec<u8>, VarExpr)>) -> bool
    decreases a,
{
    a.len() == b.len() && forall|i: int|
        0 <= i < a.len() ==> (#[trigger] a[i]).0@ == b[i].0@ && var_alike(a[i].1, b[i].1)
}

/// Two templates hold the same: text, mode, marks, and what they ask for
/// on their variables.
pub open spec fn template_alike(t: TokenExpr, u: TokenExpr) -> bool
    decreases t,
{
    &&& t.tag@ == u.tag@
    &&& t.many == u.many
    &&& t.count == u.count
    &&& crate::db::text_option(t.begin) == crate::db::text_option(u.begin)
    &&& crate::db::text_option(t.end) == crate::db::text_option(u.end)
    &&& match (t.vars, u.vars) {
        (Some(x), Some(y)) => vars_alike(x@, y@),
        (None, None) => true,
        _ => false,
    }
}

/// Copies what a template asks for on one of its variables.
pub fn copy_var(v: &VarExpr) -> (r: VarExpr)
    ensures
        var_alike(*v, r),
    decreases v,
{
    match v {
        VarExpr::Regex(s) => VarExpr::Regex(copy(s.as_slice())),
        VarExpr::If(t) => VarExpr::If(copy_template(t)),
    }
}

/// Copies what a template asks for on its variables.
pub fn copy_vars(list: &Vec<(Vec<u8>, VarExpr)>) -> (r: Vec<(Vec<u8>, VarExpr)>)
    ensures
        vars_alike(list@, r@),
    decreases list,
{
    let mut out: Vec<(Vec<u8>, VarExpr)> = Vec::new();
    let mut i: usize = 0;
    while i < list.len()
        invariant
            i <= list@.len(),
            out@.len() == i,
            forall|k: int|
                0 <= k < i ==> (#[trigger] list@[k]).0@ == out@[k].0@ && var_alike(
                    list@[k].1,
                    out@[k].1,
                ),
        decreases list@.len() - i,
    {
        out.push((copy(list[i].0.as_slice()), copy_var(&list[i].1)));
        i += 1;
    }
    out
}

/// Copies a template.
pub fn copy_template(t: &TokenExpr) -> (r: TokenExpr)
    ensures
        template_alike(*t, r),
        r.spec_mode() == t.spec_mode(),
    decreases t,
{
    let vars = match &t.vars {
        Some(list) => Some(copy_vars(list)),
        None => None,
    };
    TokenExpr {
        tag: copy(t.tag.as_slice()),
        many: t.many,
        count: t.count,
        begin: copy_option(&t.begin),
        end: copy_option(&t.end),
        vars,
    }
}

impl Clone for VarExpr {
    fn clone(&self) -> (r: Self)
        ensures
            var_alike(*self, r),
    {
        copy_var(self)
    }
}

impl Clone for TokenExpr {
    fn clone(&self) -> (r: Self)
        ensures
            template_alike(*self, r),
            r.spec_mode() == self.spec_mode(),
    {
        copy_template(self)
    }
}

/// Copies a list of templates: their texts and modes stay what they are.
pub fn copy_templates(ts: &Vec<TokenExpr>) -> (r: Vec<TokenExpr>)
    ensures
        crate::driver::templates_view(r@) == crate::driver::templates_view(ts@),
{
    let mut out: Vec<TokenExpr> = Vec::new();
    let ghost want = crate::driver::templates_view(ts@);
    let mut i: usize = 0;
    assert(crate::driver::templates_view(out@) =~= want.take(0));
    while i < ts.len()
        invariant
            i <= ts@.len(),
            want == crate::driver::templates_view(ts@),
            crate::driver::templates_view(out@) == want.take(i as int),
        decreases ts@.len() - i,
    {
        let ghost before = crate::driver::templates_view(out@);
        let t = copy_template(&ts[i]);
        let ghost this = (t.tag@, t.spec_mode());
        out.push(t);
        assert(crate::driver::templates_view(out@) =~= before.push(this));
        assert(want.take(i + 1) =~= want.take(i as int).push(this));
        i += 1;
    }
    assert(want.take(ts@.len() as int) =~= want);
    out
}

/// The texts of a list that may be missing.
pub open spec fn texts_option(a: Option<Vec<Vec<u8>>>) -> Option<Seq<Seq<u8>>> {
    match a {
        Some(list) => Some(crate::db::texts(list@)),
        None => None,
    }
}

impl Clone for AppConfig {
    fn clone(&self) -> (r: Self)
        ensures
            crate::driver::templates_view(r.templates@) == crate::driver::templates_view(
                self.templates@,
            ),
            crate::db::text_option(r.table) == crate::db::text_option(self.table),
            crate::db::text_option(r.timestamp) == crate::db::text_option(self.timestamp),
            r.output == self.output,
            texts_option(r.vars) == texts_option(self.vars),
            texts_option(r.filters) == texts_option(self.filters),
    {
        let vars = match &self.vars {
            Some(list) => Some(copy_texts(list)),
            None => None,
        };
        let filters = match &self.filters {
            Some(list) => Some(copy_texts(list)),
            None => None,
        };
        AppConfig {
            templates: copy_templates(&self.templates),
            table: copy_option(&self.table),
            timestamp: copy_option(&self.timestamp),
            output: self.output,
            vars,
            filters,
        }
    }
}

/// Copies a list of texts.
pub fn copy_texts(list: &Vec<Vec<u8>>) -> (r: Vec<Vec<u8>>)
    ensures
        crate::db::texts(r@) == crate::db::texts(list@),
{
    let mut out: Vec<Vec<u8>> = Vec::new();
    let ghost want = crate::db::texts(list@);
    let mut i: usize = 0;
    assert(crate::db::texts(out@) =~= want.take(0));
    while i < list.len()
        invariant
            i <= list@.len(),
            want == crate::db::texts(list@),
            crate::db::texts(out@) == want.take(i as int),
        decreases list@.len() - i,
    {
        let ghost before = crate::db::texts(out@);
        let t = copy(list[i].as_slice());
        let ghost this = t@;
        out.push(t);
        assert(crate::db::texts(out@) =~= before.push(this));
        assert(want.take(i + 1) =~= want.take(i as int).push(this));
        i += 1;
    }
    assert(want.take(list@.len() as int) =~= want);
    out
}

} // verus!
