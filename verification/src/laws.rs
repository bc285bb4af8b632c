//! What holds of the library as a whole: laws about the parser, the
//! combinator and the evaluator, each stated over the spec functions that
//! the contracts of the executable functions use, and proved.

use vstd::prelude::*;
use crate::ast::{ExprView, NodeView, SyntaxView};
use crate::combinator::{
    cond_step, expr_step, filter_target, first_satisfied, first_stop, key_prefix, literal_of,
    loop_range, loop_step, merge_prefixed, spec_capture, spec_combine, spec_loop, start,
    word_skip, Flow, Outcome,
};
use crate::evaluator::{match_line, rows_of, spec_evaluate, spec_many};
use crate::app::Mode;
use crate::filters::{Filter, Registry};
use crate::lexer::{lemma_split_parts_concat, spec_content};
use crate::stream::{pull_line, Message};
use crate::text::tag_at;

verus! {

/// The three parts of a literal node that the parser reads are, put
/// together, the text that the node was read from.
pub proof fn law_literal_spans_its_source(s: Seq<u8>, y: SyntaxView, pos: int)
    ensures
        spec_content(s, y, pos) matches Some((NodeView::Lit(l, b, r), end)) ==> 0 <= pos < end
            <= s.len() && l + b + r == s.subrange(pos, end),
{
    if let Some((NodeView::Lit(l, b, r), end)) = spec_content(s, y, pos) {
        lemma_split_parts_concat(s.subrange(pos, end));
    }
}

/// An expression that binds no name: neither a variable nor a filter.
pub open spec fn binds_no_name(e: ExprView) -> bool {
    !(e is Var) && !(e is Filter)
}

/// None of the nodes from place `i` on, nor any node inside them, is the
/// tag of a variable or of a filter.
pub open spec fn without_variables(nodes: Seq<NodeView>, i: int) -> bool
    decreases nodes, 0int, nodes.len() - i,
{
    if i < 0 || i >= nodes.len() {
        true
    } else {
        (match nodes[i] {
            NodeView::Lit(_, _, _) => true,
            NodeView::Expr(_, e) => binds_no_name(e),
            NodeView::Cond(branches, _) => branches_without_variables(branches, 0),
            NodeView::Loop(_, _, _, body, _) => without_variables(body, 0),
        }) && without_variables(nodes, i + 1)
    }
}

/// None of the branches from place `j` on holds the tag of a variable or of
/// a filter.
pub open spec fn branches_without_variables(branches: Seq<crate::parser::CondView>, j: int) -> bool
    decreases branches, 0int, branches.len() - j,
{
    if j < 0 || j >= branches.len() {
        true
    } else {
        without_variables(branches[j].2, 0) && branches_without_variables(branches, j + 1)
    }
}

/// Branches without variables have bodies without variables.
proof fn lemma_branch_without_variables(branches: Seq<crate::parser::CondView>, j: int, k: int)
    requires
        0 <= j <= k < branches.len(),
        branches_without_variables(branches, j),
    ensures
        without_variables(branches[k].2, 0),
    decreases k - j,
{
    if j < k {
        lemma_branch_without_variables(branches, j + 1, k);
    }
}

/// The row that a match ends with, where it ends with one.
pub open spec fn row_of(o: Outcome) -> Option<Map<Seq<u8>, Seq<u8>>> {
    match o {
        Outcome::Matched(f) => Some(f.row),
        Outcome::Missed { .. } => None,
    }
}

/// Nodes without variables leave the row as it is.
proof fn lemma_without_variables_keeps_row(nodes: Seq<NodeView>, i: int, st: Flow, fs: Seq<Filter>)
    requires
        without_variables(nodes, i),
    ensures
        row_of(spec_combine(nodes, i, st, fs)) matches Some(row) ==> row == st.row,
    decreases nodes, 0int, nodes.len() - i,
{
    reveal(spec_combine);
    reveal(spec_loop);
    if 0 <= i < nodes.len() {
        match nodes[i] {
            NodeView::Lit(a, b, c) => {
                let lit = a + b + c;
                if tag_at(st.input, 0, lit) {
                    lemma_without_variables_keeps_row(
                        nodes,
                        i + 1,
                        Flow { input: st.input.skip(lit.len() as int), ..st },
                        fs,
                    );
                }
            },
            NodeView::Expr(_, e) => {
                lemma_without_variables_keeps_row(nodes, i + 1, st, fs);
            },
            NodeView::Cond(branches, _) => {
                let after = cond_step(branches, st, fs);
                match first_satisfied(branches, st.row, 0) {
                    Some(j) => {
                        if 0 <= j < branches.len() {
                            lemma_branch_without_variables(branches, 0, j);
                            let inner_start = Flow { row: Map::empty(), ..st };
                            lemma_without_variables_keeps_row(branches[j].2, 0, inner_start, fs);
                            assert(st.row.union_prefer_right(Map::<Seq<u8>, Seq<u8>>::empty())
                                =~= st.row);
                        }
                    },
                    None => {},
                }
                assert(after.row == st.row);
                lemma_without_variables_keeps_row(nodes, i + 1, after, fs);
            },
            NodeView::Loop(_, _, iter, body, _) => {
                let after = loop_step(iter, body, st, fs);
                match loop_range(iter, st.row) {
                    Some((from, to)) => {
                        lemma_loop_without_variables_keeps_row(body, from as int, to as int, st, fs);
                    },
                    None => {},
                }
                assert(after.row == st.row);
                lemma_without_variables_keeps_row(nodes, i + 1, after, fs);
            },
        }
    }
}

/// A loop whose body is without variables leaves the row as it is.
proof fn lemma_loop_without_variables_keeps_row(
    body: Seq<NodeView>,
    n: int,
    to: int,
    st: Flow,
    fs: Seq<Filter>,
)
    requires
        without_variables(body, 0),
    ensures
        spec_loop(body, n, to, st, fs).row == st.row,
    decreases body, 1int, to - n,
{
    reveal(spec_combine);
    reveal(spec_loop);
    if !(n >= to || n < 0 || n > u32::MAX) {
        let inner_start = Flow { row: Map::empty(), ..st };
        lemma_without_variables_keeps_row(body, 0, inner_start, fs);
        let inner = spec_combine(body, 0, inner_start, fs);
        let (row, pending) = match inner {
            Outcome::Matched(f) => (merge_prefixed(st.row, f.row, key_prefix(n as u32)), f.pending),
            Outcome::Missed { pending, .. } => (st.row, pending),
        };
        assert(merge_prefixed(st.row, Map::<Seq<u8>, Seq<u8>>::empty(), key_prefix(n as u32))
            =~= st.row);
        assert(row == st.row);
        let (line, rest) = pull_line(pending);
        lemma_loop_without_variables_keeps_row(
            body,
            n + 1,
            to,
            Flow { input: line, row, pending: rest },
            fs,
        );
    }
}

/// A template without variables and filters gives an empty row where it
/// matches. A line either matches or misses: the outcome is one of the
/// two, never both.
pub proof fn law_template_without_variables(
    nodes: Seq<NodeView>,
    input: Seq<u8>,
    pending: Seq<Message>,
    fs: Seq<Filter>,
)
    requires
        without_variables(nodes, 0),
    ensures
        match spec_combine(nodes, 0, start(input, pending), fs) {
            Outcome::Matched(f) => f.row == Map::<Seq<u8>, Seq<u8>>::empty(),
            Outcome::Missed { .. } => true,
        },
        rows_of(spec_combine(nodes, 0, start(input, pending), fs)).len() == 0,
{
    lemma_without_variables_keeps_row(nodes, 0, start(input, pending), fs);
}

/// The texts of the literals from place `i` on, one after the other. What
/// stands inside a conditional or a loop is no part of it.
pub open spec fn literals_from(nodes: Seq<NodeView>, i: int) -> Seq<u8>
    decreases nodes.len() - i,
{
    if i < 0 || i >= nodes.len() {
        Seq::empty()
    } else {
        match nodes[i] {
            NodeView::Lit(a, b, c) => a + b + c + literals_from(nodes, i + 1),
            _ => literals_from(nodes, i + 1),
        }
    }
}

/// A loop over `iter` runs no round on the row: it is no loop over a range
/// with both ends given, or the range is empty.
pub open spec fn runs_no_round(iter: ExprView, row: Map<Seq<u8>, Seq<u8>>) -> bool {
    match loop_range(iter, row) {
        Some((from, to)) => from >= to,
        None => true,
    }
}

/// None of the loops among the nodes runs a round where no name is bound.
/// Loops inside a conditional or another loop are not asked.
pub open spec fn loops_idle(nodes: Seq<NodeView>) -> bool {
    forall|i: int|
        0 <= i < nodes.len() ==> match #[trigger] nodes[i] {
            NodeView::Loop(_, _, iter, _, _) => runs_no_round(iter, Map::empty()),
            _ => true,
        }
}

/// Two texts stand one after the other at the front of a line exactly
/// where the first stands at its front and the second at the front of what
/// is left behind the first.
proof fn lemma_tag_at_concat(s: Seq<u8>, a: Seq<u8>, b: Seq<u8>)
    ensures
        tag_at(s, 0, a + b) <==> tag_at(s, 0, a) && tag_at(s.skip(a.len() as int), 0, b),
        tag_at(s, 0, a + b) ==> s.skip(a.len() as int).skip(b.len() as int) == s.skip(
            (a + b).len() as int,
        ),
{
    let n = a.len() as int;
    let m = b.len() as int;
    if tag_at(s, 0, a + b) {
        assert(s.subrange(0, n) =~= (a + b).subrange(0, n));
        assert((a + b).subrange(0, n) =~= a);
        assert(s.skip(n).subrange(0, m) =~= (a + b).subrange(n, n + m));
        assert((a + b).subrange(n, n + m) =~= b);
    }
    if tag_at(s, 0, a) && tag_at(s.skip(n), 0, b) {
        assert(s.subrange(0, n + m) =~= s.subrange(0, n) + s.skip(n).subrange(0, m));
        assert(s.skip(n).skip(m) =~= s.skip(n + m));
        assert(tag_at(s, 0, a + b));
    }
}

/// Among nodes without variables, in which no loop runs, the literals
/// decide the match.
proof fn lemma_literals_decide(nodes: Seq<NodeView>, i: int, st: Flow, fs: Seq<Filter>)
    requires
        without_variables(nodes, i),
        loops_idle(nodes),
        0 <= i <= nodes.len(),
        st.row == Map::<Seq<u8>, Seq<u8>>::empty(),
    ensures
        match spec_combine(nodes, i, st, fs) {
            Outcome::Matched(f) => tag_at(st.input, 0, literals_from(nodes, i)) && f.input
                == st.input.skip(literals_from(nodes, i).len() as int) && f.row == st.row,
            Outcome::Missed { .. } => !tag_at(st.input, 0, literals_from(nodes, i)),
        },
    decreases nodes.len() - i,
{
    reveal(spec_combine);
    reveal(spec_loop);
    if i >= nodes.len() {
        assert(st.input.subrange(0, 0) =~= Seq::<u8>::empty());
        assert(st.input.skip(0) =~= st.input);
    } else {
        match nodes[i] {
            NodeView::Lit(a, b, c) => {
                let lit = a + b + c;
                let rest = literals_from(nodes, i + 1);
                assert(literals_from(nodes, i) == lit + rest);
                lemma_tag_at_concat(st.input, lit, rest);
                if tag_at(st.input, 0, lit) {
                    lemma_literals_decide(
                        nodes,
                        i + 1,
                        Flow { input: st.input.skip(lit.len() as int), ..st },
                        fs,
                    );
                }
            },
            NodeView::Expr(_, e) => {
                lemma_literals_decide(nodes, i + 1, st, fs);
            },
            NodeView::Cond(branches, _) => {
                let after = cond_step(branches, st, fs);
                match first_satisfied(branches, st.row, 0) {
                    Some(j) => {
                        if 0 <= j < branches.len() {
                            lemma_branch_without_variables(branches, 0, j);
                            let inner_start = Flow { row: Map::empty(), ..st };
                            lemma_without_variables_keeps_row(branches[j].2, 0, inner_start, fs);
                            assert(st.row.union_prefer_right(Map::<Seq<u8>, Seq<u8>>::empty())
                                =~= st.row);
                        }
                    },
                    None => {},
                }
                assert(after.row == st.row);
                lemma_literals_decide(nodes, i + 1, after, fs);
            },
            NodeView::Loop(_, _, iter, body, _) => {
                assert(runs_no_round(iter, st.row));
                assert(loop_step(iter, body, st, fs) == st);
                lemma_literals_decide(nodes, i + 1, st, fs);
            },
        }
    }
}

/// A template without variables and filters, in which no loop runs, matches
/// exactly the lines that begin with its literals, one after the other.
/// Where a line matches, what stands behind the literals is left of it, and
/// no name is bound.
pub proof fn law_literals_decide_the_match(
    nodes: Seq<NodeView>,
    input: Seq<u8>,
    pending: Seq<Message>,
    fs: Seq<Filter>,
)
    requires
        without_variables(nodes, 0),
        loops_idle(nodes),
    ensures
        spec_combine(nodes, 0, start(input, pending), fs) is Matched <==> tag_at(
            input,
            0,
            literals_from(nodes, 0),
        ),
        spec_combine(nodes, 0, start(input, pending), fs) matches Outcome::Matched(f) ==> f.input
            == input.skip(literals_from(nodes, 0).len() as int) && f.row == Map::<
            Seq<u8>,
            Seq<u8>,
        >::empty(),
{
    lemma_literals_decide(nodes, 0, start(input, pending), fs);
}

/// Every node is a literal or an expression tag: none is a conditional or
/// a loop.
pub open spec fn flat(nodes: Seq<NodeView>) -> bool {
    forall|i: int| 0 <= i < nodes.len() ==> (#[trigger] nodes[i]) is Lit || nodes[i] is Expr
}

/// The name that an expression tag binds: the name of a variable, or of
/// the variable that a filter of the registry is applied to.
pub open spec fn bound_name(e: ExprView, fs: Seq<Filter>) -> Option<Seq<u8>> {
    match e {
        ExprView::Var(key) => Some(key),
        ExprView::Filter(name, args) => if name == word_skip() {
            None
        } else {
            match (Registry::spec_lookup(fs, name), filter_target(args)) {
                (Some(_), Some(key)) => Some(key),
                _ => None,
            }
        },
        _ => None,
    }
}

/// The names that the expression tags from place `i` on bind.
pub open spec fn names_from(nodes: Seq<NodeView>, i: int, fs: Seq<Filter>) -> Set<Seq<u8>>
    decreases nodes.len() - i,
{
    if i < 0 || i >= nodes.len() {
        Set::empty()
    } else {
        let rest = names_from(nodes, i + 1, fs);
        match nodes[i] {
            NodeView::Expr(_, e) => match bound_name(e, fs) {
                Some(key) => rest.insert(key),
                None => rest,
            },
            _ => rest,
        }
    }
}

/// Where nothing can be taken for a variable before a literal, the literal
/// is not empty.
proof fn lemma_no_stop_has_literal(input: Seq<u8>, lit: Seq<u8>)
    requires
        first_stop(input, lit, 0) is None,
    ensures
        lit.len() > 0,
{
    if lit.len() == 0 {
        assert(input.subrange(0, 0) =~= lit);
    }
}

/// A match of literals and expression tags binds, besides the names that
/// were bound before, the names of its expression tags.
proof fn lemma_flat_binds_names(nodes: Seq<NodeView>, i: int, st: Flow, fs: Seq<Filter>)
    requires
        flat(nodes),
        0 <= i <= nodes.len(),
    ensures
        row_of(spec_combine(nodes, i, st, fs)) matches Some(row) ==> row.dom()
            == st.row.dom().union(names_from(nodes, i, fs)),
    decreases nodes.len() - i,
{
    reveal(spec_combine);
    reveal(spec_loop);
    if i >= nodes.len() {
        assert(st.row.dom().union(Set::<Seq<u8>>::empty()) =~= st.row.dom());
    } else {
        match nodes[i] {
            NodeView::Lit(a, b, c) => {
                let lit = a + b + c;
                if tag_at(st.input, 0, lit) {
                    lemma_flat_binds_names(
                        nodes,
                        i + 1,
                        Flow { input: st.input.skip(lit.len() as int), ..st },
                        fs,
                    );
                }
            },
            NodeView::Expr(_, e) => {
                let next = if i + 1 < nodes.len() {
                    Some(nodes[i + 1])
                } else {
                    None
                };
                let lit = literal_of(next);
                let (input, row) = expr_step(e, lit, st.input, st.row, fs);
                let after = Flow { input, row, pending: st.pending };
                lemma_flat_binds_names(nodes, i + 1, after, fs);
                let rest = names_from(nodes, i + 1, fs);
                match bound_name(e, fs) {
                    Some(key) => {
                        match spec_capture(st.input, lit) {
                            Some(k) => {
                                assert(row.dom() =~= st.row.dom().insert(key));
                                assert(st.row.dom().insert(key).union(rest) =~= st.row.dom().union(
                                    rest.insert(key),
                                ));
                            },
                            None => {
                                lemma_no_stop_has_literal(st.input, lit->0);
                                assert(!tag_at(Seq::<u8>::empty(), 0, lit->0));
                                assert(spec_combine(nodes, i + 1, after, fs) is Missed);
                            },
                        }
                    },
                    None => {
                        assert(row == st.row);
                    },
                }
            },
            _ => {},
        }
    }
}

/// A line that matches a template of literals and expression tags binds
/// the names of the variables of the template: each of them, and no other
/// name.
pub proof fn law_match_binds_the_variables(
    nodes: Seq<NodeView>,
    input: Seq<u8>,
    pending: Seq<Message>,
    fs: Seq<Filter>,
)
    requires
        flat(nodes),
    ensures
        spec_combine(nodes, 0, start(input, pending), fs) matches Outcome::Matched(f)
            ==> f.row.dom() == names_from(nodes, 0, fs),
{
    lemma_flat_binds_names(nodes, 0, start(input, pending), fs);
    assert(Map::<Seq<u8>, Seq<u8>>::empty().dom().union(names_from(nodes, 0, fs))
        =~= names_from(nodes, 0, fs));
}

/// None of the nodes from place `i` on, nor any node inside them, is a
/// loop.
pub open spec fn without_loops(nodes: Seq<NodeView>, i: int) -> bool
    decreases nodes, 0int, nodes.len() - i,
{
    if i < 0 || i >= nodes.len() {
        true
    } else {
        (match nodes[i] {
            NodeView::Cond(branches, _) => branches_without_loops(branches, 0),
            NodeView::Loop(_, _, _, _, _) => false,
            _ => true,
        }) && without_loops(nodes, i + 1)
    }
}

/// None of the branches from place `j` on holds a loop.
pub open spec fn branches_without_loops(branches: Seq<crate::parser::CondView>, j: int) -> bool
    decreases branches, 0int, branches.len() - j,
{
    if j < 0 || j >= branches.len() {
        true
    } else {
        without_loops(branches[j].2, 0) && branches_without_loops(branches, j + 1)
    }
}

/// The names that the expression tags from place `i` on bind, those inside
/// conditionals included.
pub open spec fn names_within(nodes: Seq<NodeView>, i: int, fs: Seq<Filter>) -> Set<Seq<u8>>
    decreases nodes, 0int, nodes.len() - i,
{
    if i < 0 || i >= nodes.len() {
        Set::empty()
    } else {
        let rest = names_within(nodes, i + 1, fs);
        match nodes[i] {
            NodeView::Expr(_, e) => match bound_name(e, fs) {
                Some(key) => rest.insert(key),
                None => rest,
            },
            NodeView::Cond(branches, _) => rest.union(names_within_branches(branches, 0, fs)),
            NodeView::Loop(_, _, _, body, _) => rest.union(names_within(body, 0, fs)),
            NodeView::Lit(_, _, _) => rest,
        }
    }
}

/// The names that the expression tags inside the branches from place `j`
/// on bind.
pub open spec fn names_within_branches(
    branches: Seq<crate::parser::CondView>,
    j: int,
    fs: Seq<Filter>,
) -> Set<Seq<u8>>
    decreases branches, 0int, branches.len() - j,
{
    if j < 0 || j >= branches.len() {
        Set::empty()
    } else {
        names_within(branches[j].2, 0, fs).union(names_within_branches(branches, j + 1, fs))
    }
}

/// The names within one branch are among the names within the branches.
proof fn lemma_branch_names(
    branches: Seq<crate::parser::CondView>,
    j: int,
    k: int,
    fs: Seq<Filter>,
)
    requires
        0 <= j <= k < branches.len(),
        branches_without_loops(branches, j),
    ensures
        names_within(branches[k].2, 0, fs).subset_of(names_within_branches(branches, j, fs)),
        without_loops(branches[k].2, 0),
    decreases k - j,
{
    if j < k {
        lemma_branch_names(branches, j + 1, k, fs);
    }
}

/// A match without loops binds, besides the names that were bound before,
/// names of its expression tags only.
proof fn lemma_names_come_from_tags(nodes: Seq<NodeView>, i: int, st: Flow, fs: Seq<Filter>)
    requires
        without_loops(nodes, i),
    ensures
        row_of(spec_combine(nodes, i, st, fs)) matches Some(row) ==> row.dom().subset_of(
            st.row.dom().union(names_within(nodes, i, fs)),
        ),
    decreases nodes, 0int, nodes.len() - i,
{
    reveal(spec_combine);
    reveal(spec_loop);
    if 0 <= i < nodes.len() {
        let rest = names_within(nodes, i + 1, fs);
        match nodes[i] {
            NodeView::Lit(a, b, c) => {
                let lit = a + b + c;
                if tag_at(st.input, 0, lit) {
                    lemma_names_come_from_tags(
                        nodes,
                        i + 1,
                        Flow { input: st.input.skip(lit.len() as int), ..st },
                        fs,
                    );
                }
            },
            NodeView::Expr(_, e) => {
                let next = if i + 1 < nodes.len() {
                    Some(nodes[i + 1])
                } else {
                    None
                };
                let (input, row) = expr_step(e, literal_of(next), st.input, st.row, fs);
                let after = Flow { input, row, pending: st.pending };
                lemma_names_come_from_tags(nodes, i + 1, after, fs);
                match bound_name(e, fs) {
                    Some(key) => {
                        assert(row.dom().subset_of(st.row.dom().insert(key)));
                    },
                    None => {
                        assert(row == st.row);
                    },
                }
            },
            NodeView::Cond(branches, _) => {
                let after = cond_step(branches, st, fs);
                let inside = names_within_branches(branches, 0, fs);
                match first_satisfied(branches, st.row, 0) {
                    Some(j) => {
                        if 0 <= j < branches.len() {
                            lemma_branch_names(branches, 0, j, fs);
                            let inner_start = Flow { row: Map::empty(), ..st };
                            lemma_names_come_from_tags(branches[j].2, 0, inner_start, fs);
                        }
                    },
                    None => {},
                }
                assert(after.row.dom().subset_of(st.row.dom().union(inside)));
                lemma_names_come_from_tags(nodes, i + 1, after, fs);
            },
            NodeView::Loop(_, _, _, _, _) => {},
        }
    }
}

/// A row that a template without loops binds holds no name that is not
/// the name of a variable of the template.
pub proof fn law_names_come_from_the_template(
    nodes: Seq<NodeView>,
    input: Seq<u8>,
    pending: Seq<Message>,
    fs: Seq<Filter>,
)
    requires
        without_loops(nodes, 0),
    ensures
        spec_combine(nodes, 0, start(input, pending), fs) matches Outcome::Matched(f)
            ==> f.row.dom().subset_of(names_within(nodes, 0, fs)),
{
    lemma_names_come_from_tags(nodes, 0, start(input, pending), fs);
}

/// The message at the front of the queue is a line that matches the
/// template.
pub open spec fn front_matches(nodes: Seq<NodeView>, pending: Seq<Message>, fs: Seq<Filter>) -> bool {
    pending.len() > 0 && pending[0] is Line && front_outcome(nodes, pending, fs) is Matched
}

/// The match of the template against the line at the front of the queue.
pub open spec fn front_outcome(nodes: Seq<NodeView>, pending: Seq<Message>, fs: Seq<Filter>) -> Outcome {
    match_line(nodes, pending[0]->Line_0, pending.skip(1), fs)
}

/// The first `n` messages that the template meets in the queue are lines
/// that match it, and each of them binds a name.
pub open spec fn lines_match(
    nodes: Seq<NodeView>,
    pending: Seq<Message>,
    n: nat,
    fs: Seq<Filter>,
) -> bool
    decreases n,
{
    n == 0 || (front_matches(nodes, pending, fs) && rows_of(front_outcome(nodes, pending, fs)).len()
        == 1 && lines_match(
        nodes,
        crate::evaluator::pending_of(front_outcome(nodes, pending, fs)),
        (n - 1) as nat,
        fs,
    ))
}

/// The messages that wait in the queue when the template has been matched
/// against `n` lines, one after the other.
pub open spec fn left_after(
    nodes: Seq<NodeView>,
    pending: Seq<Message>,
    n: nat,
    fs: Seq<Filter>,
) -> Seq<Message>
    decreases n,
{
    if n == 0 {
        pending
    } else {
        left_after(
            nodes,
            crate::evaluator::pending_of(front_outcome(nodes, pending, fs)),
            (n - 1) as nat,
            fs,
        )
    }
}

/// Where no line that matches is at the front of the queue, a run over
/// line after line gives no row, and tells the end of the stream where
/// that is at the front.
proof fn lemma_many_stops(nodes: Seq<NodeView>, pending: Seq<Message>, fs: Seq<Filter>)
    requires
        !front_matches(nodes, pending, fs),
    ensures
        spec_many(nodes, pending, fs).rows.len() == 0,
        spec_many(nodes, pending, fs).terminated == (pending.len() > 0 && pending[0].is_end()),
{
}

/// A run over line after line gives a row for each of the first lines that
/// match, and goes on behind them.
proof fn lemma_many_counts(nodes: Seq<NodeView>, pending: Seq<Message>, n: nat, fs: Seq<Filter>)
    requires
        lines_match(nodes, pending, n, fs),
    ensures
        spec_many(nodes, pending, fs).rows.len() == n + spec_many(
            nodes,
            left_after(nodes, pending, n, fs),
            fs,
        ).rows.len(),
        spec_many(nodes, pending, fs).terminated == spec_many(
            nodes,
            left_after(nodes, pending, n, fs),
            fs,
        ).terminated,
        spec_many(nodes, pending, fs).pending == spec_many(
            nodes,
            left_after(nodes, pending, n, fs),
            fs,
        ).pending,
    decreases n,
{
    if n > 0 {
        let o = front_outcome(nodes, pending, fs);
        crate::evaluator::lemma_combine_takes_from_front(
            nodes,
            0,
            start(pending[0]->Line_0, pending.skip(1)),
            fs,
        );
        crate::evaluator::lemma_rest_of_self(pending.skip(1));
        crate::evaluator::lemma_rest_of_rest(
            crate::evaluator::pending_of(o),
            pending.skip(1),
            pending.skip(1),
        );
        lemma_many_counts(nodes, crate::evaluator::pending_of(o), (n - 1) as nat, fs);
    }
}

/// Where the first line matches the template and the lines after it match
/// it too, up to one that does not, a template that is applied to line
/// after line gives one row and a row for each of the lines after the
/// first that match. Each of the lines is to bind a name: a row without
/// names is no row.
pub proof fn law_many_counts_matching_lines(
    nodes: Seq<NodeView>,
    pending: Seq<Message>,
    following: nat,
    fs: Seq<Filter>,
)
    requires
        lines_match(nodes, pending, 1 + following, fs),
        !front_matches(nodes, left_after(nodes, pending, 1 + following, fs), fs),
    ensures
        spec_evaluate(nodes, Mode::Many, pending, fs).rows.len() == 1 + following,
{
    let o = front_outcome(nodes, pending, fs);
    let after_first = crate::evaluator::pending_of(o);
    lemma_many_counts(nodes, after_first, following, fs);
    lemma_many_stops(nodes, left_after(nodes, pending, 1 + following, fs), fs);
}

/// Where the end of the stream comes after `n` lines that match the
/// template, a template that is applied to line after line gives `n` rows,
/// tells the end of the stream, and takes it from the queue. Each of the
/// lines is to bind a name.
pub proof fn law_end_of_stream_after_lines(
    nodes: Seq<NodeView>,
    pending: Seq<Message>,
    n: nat,
    fs: Seq<Filter>,
)
    requires
        lines_match(nodes, pending, n, fs),
        left_after(nodes, pending, n, fs).len() > 0,
        left_after(nodes, pending, n, fs)[0].is_end(),
    ensures
        spec_evaluate(nodes, Mode::Many, pending, fs).rows.len() == n,
        spec_evaluate(nodes, Mode::Many, pending, fs).terminated,
        spec_evaluate(nodes, Mode::Many, pending, fs).pending == left_after(
            nodes,
            pending,
            n,
            fs,
        ).skip(1),
{
    let left = left_after(nodes, pending, n, fs);
    lemma_many_stops(nodes, left, fs);
    if n > 0 {
        let o = front_outcome(nodes, pending, fs);
        lemma_many_counts(nodes, crate::evaluator::pending_of(o), (n - 1) as nat, fs);
    }
}

/// Where the end of the stream comes after `n` lines that match the one
/// template of a run, and the template is applied to line after line, the
/// run gives `n` rows.
pub proof fn law_single_template_run(
    tag: Seq<u8>,
    y: SyntaxView,
    pending: Seq<Message>,
    n: nat,
    fs: Seq<Filter>,
)
    requires
        crate::evaluator::spec_compile(tag, y, fs) is Ok,
        lines_match(crate::evaluator::spec_compile(tag, y, fs)->Ok_0, pending, n, fs),
        left_after(crate::evaluator::spec_compile(tag, y, fs)->Ok_0, pending, n, fs).len() > 0,
        left_after(crate::evaluator::spec_compile(tag, y, fs)->Ok_0, pending, n, fs)[0].is_end(),
    ensures
        crate::driver::spec_drive(seq![(tag, Mode::Many)], y, pending, fs) matches Ok((rows, _))
            && rows.len() == n,
{
    let nodes = crate::evaluator::spec_compile(tag, y, fs)->Ok_0;
    let ts = seq![(tag, Mode::Many)];
    law_end_of_stream_after_lines(nodes, pending, n, fs);
    assert(crate::driver::first_fault(ts, 1, y, fs) is None);
    assert(crate::driver::first_fault(ts, 0, y, fs) is None);
}

/// The message is a line that is not empty.
pub open spec fn is_full_line(m: Message) -> bool {
    match m {
        Message::Line(text) => text.len() > 0,
        _ => false,
    }
}

/// The messages that the reader makes of an input are lines, each with
/// bytes in it, and after them the end of the stream, once.
pub proof fn law_end_of_stream_is_sent_once(input: Seq<u8>, pos: int)
    requires
        0 <= pos <= input.len(),
    ensures
        crate::stream::spec_messages_from(input, pos).len() >= 1,
        crate::stream::spec_messages_from(input, pos).last().is_end(),
        forall|i: int|
            0 <= i < crate::stream::spec_messages_from(input, pos).len() - 1 ==> is_full_line(
                #[trigger] crate::stream::spec_messages_from(input, pos)[i],
            ),
    decreases input.len() - pos,
{
    let all = crate::stream::spec_messages_from(input, pos);
    if pos < input.len() {
        let end = crate::stream::line_end(input, pos);
        crate::stream::lemma_line_end_bounds(input, pos);
        law_end_of_stream_is_sent_once(input, end);
        let rest = crate::stream::spec_messages_from(input, end);
        assert(all == seq![Message::Line(input.subrange(pos, end))] + rest);
        assert forall|i: int| 0 <= i < all.len() - 1 implies is_full_line(#[trigger] all[i]) by {
            if i > 0 {
                assert(all[i] == rest[i - 1]);
            }
        }
        assert(all.last() == rest.last());
    }
}

/// The names of a set have one order only: two lists of names that grow
/// strictly and hold the same names are the same list. So the columns of a
/// table are fixed by the rows that it is made for.
pub proof fn law_sorted_names_are_unique(a: Seq<Seq<u8>>, b: Seq<Seq<u8>>)
    requires
        crate::db::strictly_sorted(a),
        crate::db::strictly_sorted(b),
        a.to_set() == b.to_set(),
    ensures
        a == b,
    decreases a.len(),
{
    if a.len() == 0 {
        if b.len() > 0 {
            assert(b.contains(b[0]));
            assert(a.to_set().contains(b[0]));
            assert(a.contains(b[0]));
        }
        assert(a =~= b);
    } else if b.len() == 0 {
        assert(a.contains(a[0]));
        assert(b.to_set().contains(a[0]));
        assert(b.contains(a[0]));
    } else {
        assert(a.contains(a[0]));
        assert(b.to_set().contains(a[0]));
        assert(b.contains(a[0]));
        let j = choose|j: int| 0 <= j < b.len() && b[j] == a[0];
        assert(b.contains(b[0]));
        assert(a.to_set().contains(b[0]));
        assert(a.contains(b[0]));
        let i = choose|i: int| 0 <= i < a.len() && a[i] == b[0];
        crate::text::lemma_lex_order(a[0], b[0], a[0]);
        if j > 0 {
            assert(crate::text::lex_less(b[0], b[j]));
            if i > 0 {
                assert(crate::text::lex_less(a[0], a[i]));
            }
        }
        assert(a[0] == b[0]);
        let a2 = a.skip(1);
        let b2 = b.skip(1);
        assert forall|p: int, q: int| 0 <= p < q < a2.len() implies crate::text::lex_less(
            #[trigger] a2[p],
            #[trigger] a2[q],
        ) by {
            assert(crate::text::lex_less(a[p + 1], a[q + 1]));
        }
        assert forall|p: int, q: int| 0 <= p < q < b2.len() implies crate::text::lex_less(
            #[trigger] b2[p],
            #[trigger] b2[q],
        ) by {
            assert(crate::text::lex_less(b[p + 1], b[q + 1]));
        }
        assert forall|x: Seq<u8>| a2.to_set().contains(x) <==> b2.to_set().contains(x) by {
            crate::text::lemma_lex_order(a[0], x, a[0]);
            if a2.contains(x) {
                let p = choose|p: int| 0 <= p < a2.len() && a2[p] == x;
                assert(a[p + 1] == x);
                assert(crate::text::lex_less(a[0], a[p + 1]));
                assert(a.contains(x));
                assert(b.to_set().contains(x));
                assert(b.contains(x));
                let q = choose|q: int| 0 <= q < b.len() && b[q] == x;
                assert(q > 0);
                assert(b2[q - 1] == x);
                assert(b2.contains(x));
            }
            if b2.contains(x) {
                let p = choose|p: int| 0 <= p < b2.len() && b2[p] == x;
                assert(b[p + 1] == x);
                assert(crate::text::lex_less(b[0], b[p + 1]));
                assert(b.contains(x));
                assert(a.to_set().contains(x));
                assert(a.contains(x));
                let q = choose|q: int| 0 <= q < a.len() && a[q] == x;
                assert(q > 0);
                assert(a2[q - 1] == x);
                assert(a2.contains(x));
            }
        }
        assert(a2.to_set() =~= b2.to_set());
        law_sorted_names_are_unique(a2, b2);
        assert(a =~= seq![a[0]] + a2);
        assert(b =~= seq![b[0]] + b2);
    }
}

} // verus!
