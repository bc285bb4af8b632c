//! The template parser: a template is compiled into a list of literal,
//! expression, conditional and loop nodes.
//!
//! As for expressions, the grammar is stated as spec functions from a text
//! and a position, and the executable parsers are proved to compute them.

use vstd::prelude::*;
use vstd::string::StringSliceAdditionalSpecFns;
use crate::ast::{
    nodes_view, Cond, Expr, ExprView, Node, NodeView, Syntax, SyntaxView, Target, TargetView, WS,
};
use crate::expr::{ahead, padded_expr, spec_padded_expr, COMMA, PAREN_CLOSE, PAREN_OPEN};
use crate::lexer::{
    blank, byte_at, dash, has_byte, identifier, keyword, skip_blank, skip_dash, spec_content,
    spec_identifier, spec_keyword, take_content,
};
use crate::text::{has_tag, tag_at};

verus! {

/// The word `if`.
pub open spec fn word_if() -> Seq<u8> {
    "if".spec_bytes()
}

/// The word `else`.
pub open spec fn word_else() -> Seq<u8> {
    "else".spec_bytes()
}

/// The word `endif`.
pub open spec fn word_endif() -> Seq<u8> {
    "endif".spec_bytes()
}

/// The word `for`.
pub open spec fn word_for() -> Seq<u8> {
    "for".spec_bytes()
}

/// The word `in`.
pub open spec fn word_in() -> Seq<u8> {
    "in".spec_bytes()
}

/// The word `endfor`.
pub open spec fn word_endfor() -> Seq<u8> {
    "endfor".spec_bytes()
}

/// A comma.
pub open spec fn word_comma() -> Seq<u8> {
    ",".spec_bytes()
}

/// What the contracts see of one branch of a conditional.
pub type CondView = (WS, Option<ExprView>, Seq<NodeView>);

/// The value of one branch of a conditional.
pub open spec fn cond_view(c: Cond) -> CondView {
    (
        c.0,
        match c.1 {
            Some(e) => Some(e@),
            None => None,
        },
        nodes_view(c.2@),
    )
}

/// The values of the branches of a conditional, in order.
pub open spec fn conds_view(cs: Seq<Cond>) -> Seq<CondView> {
    Seq::new(cs.len(), |i: int| cond_view(cs[i]))
}

/// The names of a tuple target, in order.
pub open spec fn names_view(ns: Seq<&[u8]>) -> Seq<Seq<u8>> {
    Seq::new(ns.len(), |i: int| ns[i]@)
}

/// A name at `pos` with at most one space or tab on each side: where the
/// name starts and ends, and the position after it.
pub open spec fn spec_padded_name(s: Seq<u8>, pos: int) -> Option<(int, int, int)> {
    let from = blank(s, pos);
    match spec_identifier(s, from) {
        Some(to) => Some((from, to, blank(s, to))),
        None => None,
    }
}

/// The names at `pos`, with commas between them; there may be none.
pub open spec fn spec_name_list(s: Seq<u8>, pos: int) -> (Seq<Seq<u8>>, int) {
    match spec_padded_name(s, pos) {
        Some((from, to, end)) => if ahead(s, pos, end) {
            let (rest, last) = spec_name_list_tail(s, end);
            (seq![s.subrange(from, to)] + rest, last)
        } else {
            (Seq::empty(), pos)
        },
        None => (Seq::empty(), pos),
    }
}

/// What follows a name in a list: a comma and a name, as often as both are
/// there.
pub open spec fn spec_name_list_tail(s: Seq<u8>, pos: int) -> (Seq<Seq<u8>>, int)
    decreases s.len() - pos,
{
    if byte_at(s, pos, COMMA) {
        match spec_padded_name(s, pos + 1) {
            Some((from, to, end)) => if ahead(s, pos, end) {
                let (rest, last) = spec_name_list_tail(s, end);
                (seq![s.subrange(from, to)] + rest, last)
            } else {
                (Seq::empty(), pos)
            },
            None => (Seq::empty(), pos),
        }
    } else {
        (Seq::empty(), pos)
    }
}

/// The loop target at `pos`: a name, or names in parentheses with commas
/// between them and, if one likes, a comma after the last.
pub open spec fn spec_target(s: Seq<u8>, pos: int) -> Option<(TargetView, int)> {
    match spec_identifier(s, pos) {
        Some(end) => Some((TargetView::Name(s.subrange(pos, end)), end)),
        None => if byte_at(s, pos, PAREN_OPEN) {
            let (names, after_names) = spec_name_list(s, pos + 1);
            let close = match spec_keyword(s, after_names, word_comma()) {
                Some(p) => p,
                None => after_names,
            };
            if byte_at(s, close, PAREN_CLOSE) {
                Some((TargetView::Tuple(names), close + 1))
            } else {
                None
            }
        } else {
            None
        },
    }
}

/// The expression tag at `pos`: the opening delimiter, an expression with
/// at most one space or tab on each side, and the closing delimiter. A
/// minus sign just inside a delimiter is the whitespace-control mark of
/// that side.
pub open spec fn spec_expr_node(s: Seq<u8>, y: SyntaxView, pos: int) -> Option<(NodeView, int)> {
    if tag_at(s, pos, y.expr_start) {
        let (left, expr_at) = dash(s, pos + y.expr_start.len());
        match spec_padded_expr(s, expr_at) {
            Some((e, after)) => {
                let (right, close) = dash(s, after);
                if tag_at(s, close, y.expr_end) {
                    Some((NodeView::Expr(WS(left, right), e), close + y.expr_end.len()))
                } else {
                    None
                }
            },
            None => None,
        }
    } else {
        None
    }
}

/// The condition at `pos`: the word `if` and an expression.
pub open spec fn spec_cond_if(s: Seq<u8>, pos: int) -> Option<(ExprView, int)> {
    match spec_keyword(s, pos, word_if()) {
        Some(expr_at) => spec_padded_expr(s, expr_at),
        None => None,
    }
}

/// The nodes at `pos`: as many as stand there one after the other, and the
/// position at which no further node could be read.
#[verifier::opaque]
pub open spec fn spec_nodes(s: Seq<u8>, y: SyntaxView, pos: int) -> (Seq<NodeView>, int)
    decreases s.len() - pos, 5int,
{
    match spec_node(s, y, pos) {
        Some((n, end)) => if ahead(s, pos, end) {
            let (rest, last) = spec_nodes(s, y, end);
            (seq![n] + rest, last)
        } else {
            (Seq::empty(), pos)
        },
        None => (Seq::empty(), pos),
    }
}

/// The node at `pos`: a literal, an expression tag or a block, tried in
/// this order.
#[verifier::opaque]
pub open spec fn spec_node(s: Seq<u8>, y: SyntaxView, pos: int) -> Option<(NodeView, int)>
    decreases s.len() - pos, 4int,
{
    if let Some(r) = spec_content(s, y, pos) {
        Some(r)
    } else if let Some(r) = spec_expr_node(s, y, pos) {
        Some(r)
    } else {
        spec_block_node(s, y, pos)
    }
}

/// The block at `pos`: a conditional or a loop between the opening
/// delimiter of its first tag and the closing delimiter of its last.
#[verifier::opaque]
pub open spec fn spec_block_node(s: Seq<u8>, y: SyntaxView, pos: int) -> Option<(NodeView, int)>
    decreases s.len() - pos, 3int,
{
    if tag_at(s, pos, y.block_start) {
        let inner_at = pos + y.block_start.len();
        let inner = match spec_block_if(s, y, inner_at) {
            Some(r) => Some(r),
            None => spec_block_for(s, y, inner_at),
        };
        match inner {
            Some((n, close)) => if tag_at(s, close, y.block_end) {
                Some((n, close + y.block_end.len()))
            } else {
                None
            },
            None => None,
        }
    } else {
        None
    }
}

/// The end of an opening tag at `pos`: the whitespace-control mark where
/// there is one, and the closing delimiter of blocks. Gives the mark and
/// the position after the delimiter.
pub open spec fn spec_tag_end(s: Seq<u8>, y: SyntaxView, pos: int) -> Option<(bool, int)> {
    let (right, close) = dash(s, pos);
    if tag_at(s, close, y.block_end) {
        Some((right, close + y.block_end.len()))
    } else {
        None
    }
}

/// The tag at `pos` that ends a block with the word `word`, up to its
/// closing delimiter: the opening delimiter of blocks, the word, and the
/// whitespace-control marks on both sides of the word.
pub open spec fn spec_closing_tag(s: Seq<u8>, y: SyntaxView, pos: int, word: Seq<u8>) -> Option<
    (WS, int),
> {
    if tag_at(s, pos, y.block_start) {
        let (left, word_at) = dash(s, pos + y.block_start.len());
        match spec_keyword(s, word_at, word) {
            Some(after_word) => {
                let (right, end) = dash(s, after_word);
                Some((WS(left, right), end))
            },
            None => None,
        }
    } else {
        None
    }
}

/// The head of a loop at `pos`: the word `for`, the target, the word `in`
/// and the expression iterated over.
pub open spec fn spec_for_head(s: Seq<u8>, pos: int) -> Option<(TargetView, ExprView, int)> {
    match spec_keyword(s, pos, word_for()) {
        Some(after_for) => match spec_target(s, blank(s, after_for)) {
            Some((target, after_target)) => match spec_keyword(
                s,
                blank(s, after_target),
                word_in(),
            ) {
                Some(after_in) => match spec_padded_expr(s, after_in) {
                    Some((iter, end)) => Some((target, iter, end)),
                    None => None,
                },
                None => None,
            },
            None => None,
        },
        None => None,
    }
}

/// The conditional that starts at `pos`, just inside its first tag: the
/// condition, the nodes of the first branch, the further branches, and the
/// tag with the word `endif` up to its closing delimiter.
#[verifier::opaque]
pub open spec fn spec_block_if(s: Seq<u8>, y: SyntaxView, pos: int) -> Option<(NodeView, int)>
    decreases s.len() - pos, 2int,
{
    let (left, cond_at) = dash(s, pos);
    match spec_cond_if(s, cond_at) {
        Some((cond, after_cond)) => match spec_tag_end(s, y, after_cond) {
            Some((right, body_at)) => if ahead(s, pos, body_at) {
                let (body, after_body) = spec_nodes(s, y, body_at);
                if ahead(s, pos, after_body) {
                    let (others, end_at) = spec_cond_blocks(s, y, after_body);
                    match spec_closing_tag(s, y, end_at, word_endif()) {
                        Some((end_ws, end)) => Some(
                            (
                                NodeView::Cond(
                                    seq![(WS(left, right), Some(cond), body)] + others,
                                    end_ws,
                                ),
                                end,
                            ),
                        ),
                        None => None,
                    }
                } else {
                    None
                }
            } else {
                None
            },
            None => None,
        },
        None => None,
    }
}

/// The further branches of a conditional at `pos`: as many as stand there.
#[verifier::opaque]
pub open spec fn spec_cond_blocks(s: Seq<u8>, y: SyntaxView, pos: int) -> (Seq<CondView>, int)
    decreases s.len() - pos, 1int,
{
    match spec_cond_block(s, y, pos) {
        Some((c, end)) => if ahead(s, pos, end) {
            let (rest, last) = spec_cond_blocks(s, y, end);
            (seq![c] + rest, last)
        } else {
            (Seq::empty(), pos)
        },
        None => (Seq::empty(), pos),
    }
}

/// The head of a further branch of a conditional at `pos`: the opening
/// delimiter of blocks, the word `else` and, if one likes, a condition.
/// Gives the mark of the left side, the condition, and the position after
/// them.
pub open spec fn spec_else_head(s: Seq<u8>, y: SyntaxView, pos: int) -> Option<
    (bool, Option<ExprView>, int),
> {
    if tag_at(s, pos, y.block_start) {
        let (left, word_at) = dash(s, pos + y.block_start.len());
        match spec_keyword(s, word_at, word_else()) {
            Some(after_word) => match spec_cond_if(s, after_word) {
                Some((c, p)) => Some((left, Some(c), p)),
                None => Some((left, None, after_word)),
            },
            None => None,
        }
    } else {
        None
    }
}

/// A further branch of a conditional at `pos`: a tag with the word `else`
/// and, if one likes, a condition, and the nodes of the branch.
#[verifier::opaque]
pub open spec fn spec_cond_block(s: Seq<u8>, y: SyntaxView, pos: int) -> Option<(CondView, int)>
    decreases s.len() - pos, 0int,
{
    match spec_else_head(s, y, pos) {
        Some((left, cond, after_head)) => match spec_tag_end(s, y, after_head) {
            Some((right, body_at)) => if ahead(s, pos, body_at) {
                let (body, end) = spec_nodes(s, y, body_at);
                Some(((WS(left, right), cond, body), end))
            } else {
                None
            },
            None => None,
        },
        None => None,
    }
}

/// The loop that starts at `pos`, just inside its first tag: the head, the
/// nodes of the body, and the tag with the word `endfor` up to its closing
/// delimiter.
#[verifier::opaque]
pub open spec fn spec_block_for(s: Seq<u8>, y: SyntaxView, pos: int) -> Option<(NodeView, int)>
    decreases s.len() - pos, 2int,
{
    let (left, head_at) = dash(s, pos);
    match spec_for_head(s, head_at) {
        Some((target, iter, after_head)) => match spec_tag_end(s, y, after_head) {
            Some((right, body_at)) => if ahead(s, pos, body_at) {
                let (body, end_at) = spec_nodes(s, y, body_at);
                match spec_closing_tag(s, y, end_at, word_endfor()) {
                    Some((end_ws, end)) => Some(
                        (NodeView::Loop(WS(left, right), target, iter, body, end_ws), end),
                    ),
                    None => None,
                }
            } else {
                None
            },
            None => None,
        },
        None => None,
    }
}

/// What compiling a template gives: its nodes where all of the text could
/// be read, else the position at which no further node could be read.
pub open spec fn spec_parse_template(s: Seq<u8>, y: SyntaxView) -> Result<Seq<NodeView>, int> {
    let (nodes, end) = spec_nodes(s, y, 0);
    if end == s.len() {
        Ok(nodes)
    } else {
        Err(end)
    }
}

/// The value of a conditional node is made of the values of its branches.
pub proof fn lemma_cond_node_view(branches: Vec<Cond>, ws: WS)
    ensures
        Node::Cond(branches, ws)@ == NodeView::Cond(conds_view(branches@), ws),
{
    match Node::Cond(branches, ws)@ {
        NodeView::Cond(bs, w) => {
            assert forall|i: int| 0 <= i < bs.len() implies bs[i] == conds_view(branches@)[i] by {
                assert(bs[i].2 =~= nodes_view(branches@[i].2@));
            }
            assert(bs =~= conds_view(branches@));
        },
        _ => {},
    }
}

/// The value of a loop node is made of the values of its parts.
pub proof fn lemma_loop_node_view(open: WS, target: Target, iter: Expr, body: Vec<Node>, close: WS)
    ensures
        Node::Loop(open, target, iter, body, close)@ == NodeView::Loop(
            open,
            target@,
            iter@,
            nodes_view(body@),
            close,
        ),
{
    match Node::Loop(open, target, iter, body, close)@ {
        NodeView::Loop(_, _, _, b, _) => {
            assert(b =~= nodes_view(body@));
        },
        _ => {},
    }
}

/// The parser's answer `r` is the node and position `m`.
pub open spec fn node_parsed(r: Option<(Node, usize)>, m: Option<(NodeView, int)>) -> bool {
    match r {
        Some((n, end)) => m == Some((n@, end as int)),
        None => m is None,
    }
}

/// Reads a name at `pos` with at most one space or tab on each side.
fn padded_name(input: &[u8], pos: usize) -> (r: Option<(usize, usize, usize)>)
    requires
        pos <= input.len(),
    ensures
        match r {
            Some((from, to, end)) => spec_padded_name(input@, pos as int) == Some(
                (from as int, to as int, end as int),
            ),
            None => spec_padded_name(input@, pos as int) is None,
        },
        r matches Some((from, to, end)) ==> pos <= from < to <= end <= input.len(),
{
    let from = skip_blank(input, pos);
    match identifier(input, from) {
        Some(to) => Some((from, to, skip_blank(input, to))),
        None => None,
    }
}

/// Reads the names at `pos`, with commas between them.
fn name_list<'a>(input: &'a [u8], pos: usize) -> (r: (Vec<&'a [u8]>, usize))
    requires
        pos <= input.len(),
    ensures
        spec_name_list(input@, pos as int) == (names_view(r.0@), r.1 as int),
        pos <= r.1 <= input.len(),
{
    let mut out: Vec<&'a [u8]> = Vec::new();
    let ghost whole = spec_name_list(input@, pos as int);
    let mut p: usize = pos;
    match padded_name(input, pos) {
        None => {
            assert(names_view(out@) =~= Seq::<Seq<u8>>::empty());
            return (out, pos);
        },
        Some((from, to, end)) => {
            out.push(&input[from..to]);
            p = end;
            assert(names_view(out@) =~= seq![input@.subrange(from as int, to as int)]);
        },
    }
    loop
        invariant
            pos < p <= input.len(),
            whole == (
                names_view(out@) + spec_name_list_tail(input@, p as int).0,
                spec_name_list_tail(input@, p as int).1,
            ),
        ensures
            pos < p <= input.len(),
            whole == (names_view(out@), p as int),
        decreases input.len() - p,
    {
        if !has_byte(input, p, COMMA) {
            assert(names_view(out@) + Seq::<Seq<u8>>::empty() =~= names_view(out@));
            break ;
        }
        match padded_name(input, p + 1) {
            None => {
                assert(names_view(out@) + Seq::<Seq<u8>>::empty() =~= names_view(out@));
                break ;
            },
            Some((from, to, end)) => {
                let ghost before = names_view(out@);
                let ghost rest = spec_name_list_tail(input@, end as int).0;
                let ghost name = input@.subrange(from as int, to as int);
                out.push(&input[from..to]);
                proof {
                    assert(names_view(out@) =~= before + seq![name]);
                    assert(before + (seq![name] + rest) =~= (before + seq![name]) + rest);
                }
                p = end;
            },
        }
    }
    (out, p)
}

/// Reads the loop target at `pos`.
fn target<'a>(input: &'a [u8], pos: usize) -> (r: Option<(Target<'a>, usize)>)
    requires
        pos <= input.len(),
    ensures
        match r {
            Some((t, end)) => spec_target(input@, pos as int) == Some((t@, end as int)),
            None => spec_target(input@, pos as int) is None,
        },
        r matches Some((_, end)) ==> pos < end <= input.len(),
{
    if let Some(end) = identifier(input, pos) {
        return Some((Target::Name(&input[pos..end]), end));
    }
    if !has_byte(input, pos, PAREN_OPEN) {
        return None;
    }
    let (names, after_names) = name_list(input, pos + 1);
    let close = match keyword(input, after_names, ",".as_bytes()) {
        Some(p) => p,
        None => after_names,
    };
    if has_byte(input, close, PAREN_CLOSE) {
        let t = Target::Tuple(names);
        assert(t@ == TargetView::Tuple(names_view(names@))) by {
            match t@ {
                TargetView::Tuple(ns) => {
                    assert(ns =~= names_view(names@));
                },
                _ => {},
            }
        }
        Some((t, close + 1))
    } else {
        None
    }
}

/// Reads the expression tag at `pos`.
fn expr_node<'a>(input: &'a [u8], pos: usize, syntax: &Syntax) -> (r: Option<(Node<'a>, usize)>)
    requires
        syntax@.wf(),
        pos <= input.len(),
    ensures
        node_parsed(r, spec_expr_node(input@, syntax@, pos as int)),
        r matches Some((_, end)) ==> pos < end <= input.len(),
{
    if !has_tag(input, pos, syntax.expr_start.as_slice()) {
        return None;
    }
    let (left, expr_at) = skip_dash(input, pos + syntax.expr_start.len());
    match padded_expr(input, expr_at) {
        Some((e, after)) => {
            let (right, close) = skip_dash(input, after);
            if has_tag(input, close, syntax.expr_end.as_slice()) {
                Some((Node::Expr(WS(left, right), e), close + syntax.expr_end.len()))
            } else {
                None
            }
        },
        None => None,
    }
}

/// Reads the condition at `pos`: the word `if` and an expression.
fn cond_if<'a>(input: &'a [u8], pos: usize) -> (r: Option<(Expr<'a>, usize)>)
    requires
        pos <= input.len(),
    ensures
        match r {
            Some((e, end)) => spec_cond_if(input@, pos as int) == Some((e@, end as int)),
            None => spec_cond_if(input@, pos as int) is None,
        },
        r matches Some((_, end)) ==> pos < end <= input.len(),
{
    match keyword(input, pos, "if".as_bytes()) {
        Some(expr_at) => padded_expr(input, expr_at),
        None => None,
    }
}

/// Reads the nodes at `pos`: as many as stand there one after the other.
/// Answers with the nodes and with the position at which no further node
/// could be read.
pub fn parse_nodes<'a>(input: &'a [u8], pos: usize, syntax: &Syntax) -> (r: (Vec<Node<'a>>, usize))
    requires
        syntax@.wf(),
        pos <= input.len(),
    ensures
        spec_nodes(input@, syntax@, pos as int) == (nodes_view(r.0@), r.1 as int),
        pos <= r.1 <= input.len(),
    decreases input.len() - pos, 5int,
{
    let mut out: Vec<Node<'a>> = Vec::new();
    let ghost whole = spec_nodes(input@, syntax@, pos as int);
    let mut p: usize = pos;
    assert(nodes_view(out@) + whole.0 =~= whole.0);
    loop
        invariant
            syntax@.wf(),
            pos <= p <= input.len(),
            whole == (
                nodes_view(out@) + spec_nodes(input@, syntax@, p as int).0,
                spec_nodes(input@, syntax@, p as int).1,
            ),
        ensures
            pos <= p <= input.len(),
            whole == (nodes_view(out@), p as int),
        decreases input.len() - p,
    {
        proof {
            reveal(spec_nodes);
            reveal(spec_node);
        }
        match node(input, p, syntax) {
            None => {
                assert(nodes_view(out@) + Seq::<NodeView>::empty() =~= nodes_view(out@));
                break ;
            },
            Some((n, end)) => {
                let ghost before = nodes_view(out@);
                let ghost rest = spec_nodes(input@, syntax@, end as int).0;
                out.push(n);
                proof {
                    assert(nodes_view(out@) =~= before + seq![n@]);
                    assert(before + (seq![n@] + rest) =~= (before + seq![n@]) + rest);
                }
                p = end;
            },
        }
    }
    (out, p)
}

/// Reads the node at `pos`: a literal, an expression tag or a block.
fn node<'a>(input: &'a [u8], pos: usize, syntax: &Syntax) -> (r: Option<(Node<'a>, usize)>)
    requires
        syntax@.wf(),
        pos <= input.len(),
    ensures
        node_parsed(r, spec_node(input@, syntax@, pos as int)),
        r matches Some((_, end)) ==> pos < end <= input.len(),
    decreases input.len() - pos, 4int,
{
    proof {
        reveal(spec_node);
        reveal(spec_block_node);
    }
    if let Some(r) = take_content(input, pos, syntax) {
        return Some(r);
    }
    if let Some(r) = expr_node(input, pos, syntax) {
        return Some(r);
    }
    block_node(input, pos, syntax)
}

/// Reads the block at `pos`: a conditional or a loop.
fn block_node<'a>(input: &'a [u8], pos: usize, syntax: &Syntax) -> (r: Option<(Node<'a>, usize)>)
    requires
        syntax@.wf(),
        pos <= input.len(),
    ensures
        node_parsed(r, spec_block_node(input@, syntax@, pos as int)),
        r matches Some((_, end)) ==> pos < end <= input.len(),
    decreases input.len() - pos, 3int,
{
    proof {
        reveal(spec_block_node);
        reveal(spec_block_if);
        reveal(spec_block_for);
    }
    if !has_tag(input, pos, syntax.block_start.as_slice()) {
        return None;
    }
    let inner_at = pos + syntax.block_start.len();
    let inner = match block_if(input, inner_at, syntax) {
        Some(r) => Some(r),
        None => block_for(input, inner_at, syntax),
    };
    match inner {
        Some((n, close)) => {
            if has_tag(input, close, syntax.block_end.as_slice()) {
                Some((n, close + syntax.block_end.len()))
            } else {
                None
            }
        },
        None => None,
    }
}

/// Reads the end of an opening tag at `pos`.
fn tag_end(input: &[u8], pos: usize, syntax: &Syntax) -> (r: Option<(bool, usize)>)
    requires
        pos <= input.len(),
    ensures
        match r {
            Some((right, end)) => spec_tag_end(input@, syntax@, pos as int) == Some(
                (right, end as int),
            ),
            None => spec_tag_end(input@, syntax@, pos as int) is None,
        },
        r matches Some((_, end)) ==> pos <= end <= input.len(),
{
    let (right, close) = skip_dash(input, pos);
    if has_tag(input, close, syntax.block_end.as_slice()) {
        Some((right, close + syntax.block_end.len()))
    } else {
        None
    }
}

/// Reads the tag at `pos` that ends a block with the word `word`.
fn closing_tag(input: &[u8], pos: usize, syntax: &Syntax, word: &[u8]) -> (r: Option<(WS, usize)>)
    requires
        pos <= input.len(),
    ensures
        match r {
            Some((ws, end)) => spec_closing_tag(input@, syntax@, pos as int, word@) == Some(
                (ws, end as int),
            ),
            None => spec_closing_tag(input@, syntax@, pos as int, word@) is None,
        },
        r matches Some((_, end)) ==> pos <= end <= input.len(),
{
    if !has_tag(input, pos, syntax.block_start.as_slice()) {
        return None;
    }
    let (left, word_at) = skip_dash(input, pos + syntax.block_start.len());
    match keyword(input, word_at, word) {
        Some(after_word) => {
            let (right, end) = skip_dash(input, after_word);
            Some((WS(left, right), end))
        },
        None => None,
    }
}

/// Reads the head of a loop at `pos`.
fn for_head<'a>(input: &'a [u8], pos: usize) -> (r: Option<(Target<'a>, Expr<'a>, usize)>)
    requires
        pos <= input.len(),
    ensures
        match r {
            Some((t, e, end)) => spec_for_head(input@, pos as int) == Some((t@, e@, end as int)),
            None => spec_for_head(input@, pos as int) is None,
        },
        r matches Some((_, _, end)) ==> pos < end <= input.len(),
{
    let after_for = match keyword(input, pos, "for".as_bytes()) {
        Some(p) => p,
        None => {
            return None;
        },
    };
    let (var, after_target) = match target(input, skip_blank(input, after_for)) {
        Some(r) => r,
        None => {
            return None;
        },
    };
    let after_in = match keyword(input, skip_blank(input, after_target), "in".as_bytes()) {
        Some(p) => p,
        None => {
            return None;
        },
    };
    match padded_expr(input, after_in) {
        Some((iter, end)) => Some((var, iter, end)),
        None => None,
    }
}

/// Reads the conditional that starts at `pos`, just inside its first tag.
fn block_if<'a>(input: &'a [u8], pos: usize, syntax: &Syntax) -> (r: Option<(Node<'a>, usize)>)
    requires
        syntax@.wf(),
        pos <= input.len(),
    ensures
        node_parsed(r, spec_block_if(input@, syntax@, pos as int)),
        r matches Some((_, end)) ==> pos < end <= input.len(),
    decreases input.len() - pos, 2int,
{
    proof {
        reveal(spec_block_if);
        reveal(spec_nodes);
        reveal(spec_cond_blocks);
    }
    let (left, cond_at) = skip_dash(input, pos);
    let (cond, after_cond) = match cond_if(input, cond_at) {
        Some(r) => r,
        None => {
            return None;
        },
    };
    let (right, body_at) = match tag_end(input, after_cond, syntax) {
        Some(r) => r,
        None => {
            return None;
        },
    };
    let (body, after_body) = parse_nodes(input, body_at, syntax);
    let (others, end_at) = cond_blocks(input, after_body, syntax);
    let (end_ws, end) = match closing_tag(input, end_at, syntax, "endif".as_bytes()) {
        Some(r) => r,
        None => {
            return None;
        },
    };
    Some((conditional((WS(left, right), Some(cond), body), others, end_ws), end))
}

/// Makes a conditional node of its first branch, its further branches and
/// the marks of its closing tag.
fn conditional<'a>(first: Cond<'a>, others: Vec<Cond<'a>>, ws: WS) -> (n: Node<'a>)
    ensures
        n@ == NodeView::Cond(seq![cond_view(first)] + conds_view(others@), ws),
{
    let mut branches: Vec<Cond<'a>> = others;
    let ghost others_view = conds_view(branches@);
    let ghost first_view = cond_view(first);
    branches.insert(0, first);
    proof {
        assert(conds_view(branches@) =~= seq![first_view] + others_view);
        lemma_cond_node_view(branches, ws);
    }
    Node::Cond(branches, ws)
}

/// Reads the further branches of a conditional at `pos`.
fn cond_blocks<'a>(input: &'a [u8], pos: usize, syntax: &Syntax) -> (r: (Vec<Cond<'a>>, usize))
    requires
        syntax@.wf(),
        pos <= input.len(),
    ensures
        spec_cond_blocks(input@, syntax@, pos as int) == (conds_view(r.0@), r.1 as int),
        pos <= r.1 <= input.len(),
    decreases input.len() - pos, 1int,
{
    let mut out: Vec<Cond<'a>> = Vec::new();
    let ghost whole = spec_cond_blocks(input@, syntax@, pos as int);
    let mut p: usize = pos;
    assert(conds_view(out@) + whole.0 =~= whole.0);
    loop
        invariant
            syntax@.wf(),
            pos <= p <= input.len(),
            whole == (
                conds_view(out@) + spec_cond_blocks(input@, syntax@, p as int).0,
                spec_cond_blocks(input@, syntax@, p as int).1,
            ),
        ensures
            pos <= p <= input.len(),
            whole == (conds_view(out@), p as int),
        decreases input.len() - p,
    {
        proof {
            reveal(spec_cond_blocks);
            reveal(spec_cond_block);
        }
        match cond_block(input, p, syntax) {
            None => {
                assert(conds_view(out@) + Seq::<CondView>::empty() =~= conds_view(out@));
                break ;
            },
            Some((c, end)) => {
                let ghost before = conds_view(out@);
                let ghost rest = spec_cond_blocks(input@, syntax@, end as int).0;
                let ghost this = cond_view(c);
                out.push(c);
                proof {
                    assert(conds_view(out@) =~= before + seq![this]);
                    assert(before + (seq![this] + rest) =~= (before + seq![this]) + rest);
                }
                p = end;
            },
        }
    }
    (out, p)
}

/// Reads the head of a further branch of a conditional at `pos`.
fn else_head<'a>(input: &'a [u8], pos: usize, syntax: &Syntax) -> (r: Option<
    (bool, Option<Expr<'a>>, usize),
>)
    requires
        syntax@.wf(),
        pos <= input.len(),
    ensures
        match r {
            Some((left, cond, end)) => spec_else_head(input@, syntax@, pos as int) == Some(
                (
                    left,
                    match cond {
                        Some(e) => Some(e@),
                        None => None,
                    },
                    end as int,
                ),
            ),
            None => spec_else_head(input@, syntax@, pos as int) is None,
        },
        r matches Some((_, _, end)) ==> pos < end <= input.len(),
{
    if !has_tag(input, pos, syntax.block_start.as_slice()) {
        return None;
    }
    let (left, word_at) = skip_dash(input, pos + syntax.block_start.len());
    match keyword(input, word_at, "else".as_bytes()) {
        Some(after_word) => match cond_if(input, after_word) {
            Some((c, p)) => Some((left, Some(c), p)),
            None => Some((left, None, after_word)),
        },
        None => None,
    }
}

/// Reads a further branch of a conditional at `pos`.
fn cond_block<'a>(input: &'a [u8], pos: usize, syntax: &Syntax) -> (r: Option<(Cond<'a>, usize)>)
    requires
        syntax@.wf(),
        pos <= input.len(),
    ensures
        match r {
            Some((c, end)) => spec_cond_block(input@, syntax@, pos as int) == Some(
                (cond_view(c), end as int),
            ),
            None => spec_cond_block(input@, syntax@, pos as int) is None,
        },
        r matches Some((_, end)) ==> pos < end <= input.len(),
    decreases input.len() - pos, 0int,
{
    proof {
        reveal(spec_cond_block);
        reveal(spec_nodes);
    }
    let (left, cond, after_head) = match else_head(input, pos, syntax) {
        Some(r) => r,
        None => {
            return None;
        },
    };
    let (right, body_at) = match tag_end(input, after_head, syntax) {
        Some(r) => r,
        None => {
            return None;
        },
    };
    let (body, end) = parse_nodes(input, body_at, syntax);
    Some(((WS(left, right), cond, body), end))
}

/// Reads the loop that starts at `pos`, just inside its first tag.
fn block_for<'a>(input: &'a [u8], pos: usize, syntax: &Syntax) -> (r: Option<(Node<'a>, usize)>)
    requires
        syntax@.wf(),
        pos <= input.len(),
    ensures
        node_parsed(r, spec_block_for(input@, syntax@, pos as int)),
        r matches Some((_, end)) ==> pos < end <= input.len(),
    decreases input.len() - pos, 2int,
{
    proof {
        reveal(spec_block_for);
        reveal(spec_nodes);
    }
    let (left, head_at) = skip_dash(input, pos);
    let (var, iter, after_head) = match for_head(input, head_at) {
        Some(r) => r,
        None => {
            return None;
        },
    };
    let (right, body_at) = match tag_end(input, after_head, syntax) {
        Some(r) => r,
        None => {
            return None;
        },
    };
    let (body, end_at) = parse_nodes(input, body_at, syntax);
    let (end_ws, end) = match closing_tag(input, end_at, syntax, "endfor".as_bytes()) {
        Some(r) => r,
        None => {
            return None;
        },
    };
    proof {
        lemma_loop_node_view(WS(left, right), var, iter, body, end_ws);
    }
    Some((Node::Loop(WS(left, right), var, iter, body, end_ws), end))
}

/// Why a template could not be compiled.
#[derive(Debug, Clone, Copy, PartialEq, Eq)]
pub struct ParseError {
    /// The position of the first byte that is part of no node.
    pub offset: usize,
}

/// Compiles a template into its nodes. It fails where some of the text is
/// part of no node: a tag that is not closed, a missing word, a name that
/// does not read as one. An empty template gives no nodes.
pub fn parse_template<'a>(i: &'a [u8], s: &Syntax) -> (r: Result<Vec<Node<'a>>, ParseError>)
    requires
        s@.wf(),
    ensures
        match r {
            Ok(nodes) => spec_parse_template(i@, s@) == Ok::<Seq<NodeView>, int>(
                nodes_view(nodes@),
            ),
            Err(e) => spec_parse_template(i@, s@) == Err::<Seq<NodeView>, int>(e.offset as int)
                && e.offset < i@.len(),
        },
{
    let (nodes, end) = parse_nodes(i, 0, s);
    if end == i.len() {
        Ok(nodes)
    } else {
        Err(ParseError { offset: end })
    }
}

} // verus!
