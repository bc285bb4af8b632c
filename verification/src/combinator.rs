//! The line combinator: a compiled template is bound against a line of
//! input, which gives a row and what is left of the line, or a miss.

use vstd::prelude::*;
use vstd::string::StringSliceAdditionalSpecFns;
use std::collections::VecDeque;
use crate::app::TokenExpr;
use crate::ast::{nodes_view, Expr, ExprView, Node, NodeView};
use crate::filters::{Filter, Registry};
use crate::lexer::byte_at;
use crate::number::{decimal_value, number_value, parse_decimal, parse_number, Decimal};
use crate::row::Row;
use crate::stream::{messages, pull_line, read_line, InputToken, Message};
use crate::text::{copy, same, tag_at, NEWLINE};

verus! {

/// The position of the first newline of a text, or its length where it has
/// none.
pub open spec fn newline_at(s: Seq<u8>) -> int {
    newline_from(s, 0)
}

/// The position of the first newline at or after `k`, or the length of the
/// text where there is none.
pub open spec fn newline_from(s: Seq<u8>, k: int) -> int
    decreases s.len() - k,
{
    if k < 0 || k >= s.len() {
        s.len() as int
    } else if s[k] == NEWLINE {
        k
    } else {
        newline_from(s, k + 1)
    }
}

/// The first position at or after `k` at which a newline or the text `lit`
/// stands.
pub open spec fn first_stop(input: Seq<u8>, lit: Seq<u8>, k: int) -> Option<int>
    decreases input.len() - k,
{
    if k < 0 || k > input.len() {
        None
    } else if byte_at(input, k, NEWLINE) || tag_at(input, k, lit) {
        Some(k)
    } else if k == input.len() {
        None
    } else {
        first_stop(input, lit, k + 1)
    }
}

/// How many bytes of the input a variable takes. Before a literal it takes
/// what stands before the first newline or the literal, whichever comes
/// first, and nothing can be taken where neither comes. Elsewhere it takes
/// what stands before the first newline, or all that is there.
pub open spec fn spec_capture(input: Seq<u8>, lit: Option<Seq<u8>>) -> Option<int> {
    match lit {
        Some(l) => first_stop(input, l, 0),
        None => Some(newline_at(input)),
    }
}

/// The text of a literal node; other nodes have none.
pub open spec fn literal_of(n: Option<NodeView>) -> Option<Seq<u8>> {
    match n {
        Some(NodeView::Lit(a, b, c)) => Some(a + b + c),
        _ => None,
    }
}

/// The first newline lies inside the text or at its end, and no newline
/// stands before it.
pub proof fn lemma_newline_from(s: Seq<u8>, k: int)
    requires
        0 <= k <= s.len(),
    ensures
        k <= newline_from(s, k) <= s.len(),
        newline_from(s, k) < s.len() ==> s[newline_from(s, k)] == NEWLINE,
        forall|j: int| k <= j < newline_from(s, k) ==> s[j] != NEWLINE,
    decreases s.len() - k,
{
    if k < s.len() && s[k] != NEWLINE {
        lemma_newline_from(s, k + 1);
    }
}

/// What stands at the front of a text from `k` on stands in the text at
/// `k`.
pub proof fn lemma_tag_at_skip(s: Seq<u8>, k: int, t: Seq<u8>)
    requires
        0 <= k <= s.len(),
    ensures
        tag_at(s.skip(k), 0, t) == tag_at(s, k, t),
{
    if k + t.len() <= s.len() {
        assert(s.skip(k).subrange(0, t.len() as int) =~= s.subrange(k, k + t.len()));
    }
}

/// Tells whether the text `t` stands at the front of `input`, and gives
/// what follows it there.
///
/// This is `tag` of `nom::bytes::complete`, on byte slices. It compares
/// the first bytes of the input with the text and, where all are the same
/// and the input is not shorter than the text, splits the input after as
/// many bytes as the text has.
#[verifier::external_body]
fn begins_with<'a>(input: &'a [u8], t: &[u8]) -> (r: Option<&'a [u8]>)
    ensures
        match r {
            Some(rest) => tag_at(input@, 0, t@) && rest@ == input@.skip(t@.len() as int),
            None => !tag_at(input@, 0, t@),
        },
{
    let parsed: nom::IResult<&[u8], &[u8]> = nom::bytes::complete::tag(t)(input);
    match parsed {
        Ok((rest, _)) => Some(rest),
        Err(_) => None,
    }
}

/// Splits the input before its first newline: gives what follows, newline
/// included, and what was before it. Gives nothing where the input has no
/// newline.
///
/// This is `take_until` of `nom::bytes::streaming`, on byte slices, with
/// the newline as the text to look for. It finds the first place of the
/// newline and splits the input there.
#[verifier::external_body]
fn until_newline<'a>(input: &'a [u8]) -> (r: Option<(&'a [u8], &'a [u8])>)
    ensures
        match r {
            Some((rest, taken)) => newline_at(input@) < input@.len() && taken@ == input@.take(
                newline_at(input@),
            ) && rest@ == input@.skip(newline_at(input@)),
            None => newline_at(input@) == input@.len(),
        },
{
    let parsed: nom::IResult<&[u8], &[u8]> = nom::bytes::streaming::take_until("\n")(input);
    match parsed {
        Ok((rest, taken)) => Some((rest, taken)),
        Err(_) => None,
    }
}

/// The value of a node that may be there.
pub open spec fn node_option_view(n: Option<&Node>) -> Option<NodeView> {
    match n {
        Some(n) => Some(n@),
        None => None,
    }
}

/// Puts the three parts of a literal together.
pub fn literal_text(a: &[u8], b: &[u8], c: &[u8]) -> (r: Vec<u8>)
    ensures
        r@ == a@ + b@ + c@,
{
    let mut lit = copy(a);
    lit.extend_from_slice(b);
    lit.extend_from_slice(c);
    lit
}

/// Takes from the input what a variable takes where `token` is the node
/// after it. Gives what is left of the input and what was taken.
pub fn token_expr<'a>(input: &'a [u8], token: Option<&Node>) -> (r: Option<(&'a [u8], &'a [u8])>)
    ensures
        match spec_capture(input@, literal_of(node_option_view(token))) {
            Some(k) => r matches Some((rest, hit)) && 0 <= k <= input@.len() && hit@
                == input@.take(k) && rest@ == input@.skip(k),
            None => r is None,
        },
{
    if let Some(Node::Lit(a, b, c)) = token {
        let lit = literal_text(a, b, c);
        let newline: [u8; 1] = [NEWLINE];
        let ghost wanted = spec_capture(input@, literal_of(node_option_view(token)));
        let mut k: usize = 0;
        loop
            invariant
                k <= input.len(),
                newline@ =~= seq![NEWLINE],
                wanted == first_stop(input@, lit@, k as int),
                wanted == spec_capture(input@, literal_of(node_option_view(token))),
            decreases input.len() - k,
        {
            let from = &input[k..input.len()];
            proof {
                assert(from@ =~= input@.skip(k as int));
                lemma_tag_at_skip(input@, k as int, lit@);
                lemma_tag_at_skip(input@, k as int, newline@);
                if k < input.len() {
                    assert(input@.subrange(k as int, k + 1) =~= seq![input@[k as int]]);
                    assert(seq![NEWLINE][0] == NEWLINE);
                }
            }
            if begins_with(from, newline.as_slice()).is_some() || begins_with(
                from,
                lit.as_slice(),
            ).is_some() {
                return Some((from, &input[0..k]));
            }
            if k == input.len() {
                return None;
            }
            k += 1;
        }
    } else {
        proof {
            lemma_newline_from(input@, 0);
        }
        match until_newline(input) {
            Some(pair) => Some(pair),
            None => {
                let rest = &input[input.len()..input.len()];
                assert(rest@ =~= input@.skip(input@.len() as int));
                assert(input@ =~= input@.take(input@.len() as int));
                Some((rest, input))
            },
        }
    }
}

/// The text that an expression stands for in a condition: the value bound
/// to a variable, or the text of a number or of a literal in double quotes.
/// Other expressions, and variables that are not bound, stand for none.
pub open spec fn operand(row: Map<Seq<u8>, Seq<u8>>, e: ExprView) -> Option<Seq<u8>> {
    match e {
        ExprView::Var(n) => if row.dom().contains(n) {
            Some(row[n])
        } else {
            None
        },
        ExprView::NumLit(s) => Some(s),
        ExprView::StrLit(s) => Some(s),
        _ => None,
    }
}

/// The number that an expression stands for in a comparison. The outer
/// `None` says that the expression stands for a text that is no number; the
/// inner one, that it stands for no text.
pub open spec fn number_operand(row: Map<Seq<u8>, Seq<u8>>, e: ExprView) -> Option<
    Option<Decimal>,
> {
    match operand(row, e) {
        None => Some(None),
        Some(t) => match decimal_value(t) {
            Some(v) => Some(Some(v)),
            None => None,
        },
    }
}

/// The order of comparisons: what stands for no text comes before every
/// number, and a number comes before the numbers that are greater.
pub open spec fn before(a: Option<Decimal>, b: Option<Decimal>) -> bool {
    match (a, b) {
        (None, Some(_)) => true,
        (Some(x), Some(y)) => x.value() < y.value(),
        _ => false,
    }
}

/// The operator `==`.
pub open spec fn op_equal() -> Seq<u8> {
    "==".spec_bytes()
}

/// The operator `!=`.
pub open spec fn op_unequal() -> Seq<u8> {
    "!=".spec_bytes()
}

/// The operator `>`.
pub open spec fn op_greater() -> Seq<u8> {
    ">".spec_bytes()
}

/// The operator `<`.
pub open spec fn op_less() -> Seq<u8> {
    "<".spec_bytes()
}

/// The operator `>=`.
pub open spec fn op_at_least() -> Seq<u8> {
    ">=".spec_bytes()
}

/// The operator `<=`.
pub open spec fn op_at_most() -> Seq<u8> {
    "<=".spec_bytes()
}

/// Whether a comparison holds of a row. `==` and `!=` compare the texts
/// that the two sides stand for. `>`, `<`, `>=` and `<=` compare decimal
/// numbers, and hold of no side that stands for a text that is no number.
/// Other operators never hold.
pub open spec fn spec_bin_op(
    row: Map<Seq<u8>, Seq<u8>>,
    op: Seq<u8>,
    left: ExprView,
    right: ExprView,
) -> bool {
    if op == op_equal() {
        operand(row, left) == operand(row, right)
    } else if op == op_unequal() {
        operand(row, left) != operand(row, right)
    } else {
        match (number_operand(row, left), number_operand(row, right)) {
            (Some(a), Some(b)) => if op == op_greater() {
                before(b, a)
            } else if op == op_less() {
                before(a, b)
            } else if op == op_at_least() {
                !before(a, b)
            } else if op == op_at_most() {
                !before(b, a)
            } else {
                false
            },
            _ => false,
        }
    }
}

/// Where a match stands: what is left of the line, the names bound so far,
/// and the messages that wait in the queue.
pub struct Flow {
    pub input: Seq<u8>,
    pub row: Map<Seq<u8>, Seq<u8>>,
    pub pending: Seq<Message>,
}

/// The state of a match with the given parts.
pub open spec fn flow(input: Seq<u8>, row: Map<Seq<u8>, Seq<u8>>, pending: Seq<Message>) -> Flow {
    Flow { input, row, pending }
}

/// The state in which a match starts: no names are bound.
pub open spec fn start(input: Seq<u8>, pending: Seq<Message>) -> Flow {
    Flow { input, row: Map::empty(), pending }
}

/// How a match ended: with all nodes matched, or with a literal that does
/// not stand at the front of what is left of the line.
pub enum Outcome {
    Matched(Flow),
    Missed { input: Seq<u8>, pending: Seq<Message> },
}

/// The word `skip`: the filter that takes a value and binds it to no name.
pub open spec fn word_skip() -> Seq<u8> {
    "skip".spec_bytes()
}

/// The operator `..`.
pub open spec fn word_range() -> Seq<u8> {
    "..".spec_bytes()
}

/// A value as a filter leaves it; without a filter it stays as it is.
pub open spec fn filtered(f: Option<Filter>, value: Seq<u8>) -> Seq<u8> {
    match f {
        Some(f) => f.spec_apply(value),
        None => value,
    }
}

/// A variable takes its part of the input. Where a name is given, what was
/// taken is bound to it as the filter leaves it. Where nothing can be
/// taken, nothing is bound and nothing is left of the input.
pub open spec fn bind_step(
    input: Seq<u8>,
    row: Map<Seq<u8>, Seq<u8>>,
    key: Option<Seq<u8>>,
    lit: Option<Seq<u8>>,
    f: Option<Filter>,
) -> (Seq<u8>, Map<Seq<u8>, Seq<u8>>) {
    match spec_capture(input, lit) {
        Some(k) => (
            input.skip(k),
            match key {
                Some(name) => row.insert(name, filtered(f, input.take(k))),
                None => row,
            },
        ),
        None => (Seq::empty(), row),
    }
}

/// The variable that a filter is applied to: the first of its arguments,
/// where that is a variable.
pub open spec fn filter_target(args: Seq<ExprView>) -> Option<Seq<u8>> {
    if args.len() > 0 {
        match args[0] {
            ExprView::Var(key) => Some(key),
            _ => None,
        }
    } else {
        None
    }
}

/// What an expression tag does to a match, `lit` being the text of the
/// literal after it, if a literal follows. A variable binds what it takes.
/// The filter `skip` takes and binds nothing. A filter of the registry on a
/// variable binds what the variable takes as the filter leaves it. Any
/// other expression does nothing.
pub open spec fn expr_step(
    e: ExprView,
    lit: Option<Seq<u8>>,
    input: Seq<u8>,
    row: Map<Seq<u8>, Seq<u8>>,
    fs: Seq<Filter>,
) -> (Seq<u8>, Map<Seq<u8>, Seq<u8>>) {
    match e {
        ExprView::Filter(name, args) => if name == word_skip() {
            bind_step(input, row, None, lit, None)
        } else {
            match (Registry::spec_lookup(fs, name), filter_target(args)) {
                (Some(f), Some(key)) => bind_step(input, row, Some(key), lit, Some(f)),
                _ => (input, row),
            }
        },
        ExprView::Var(key) => bind_step(input, row, Some(key), lit, None),
        _ => (input, row),
    }
}

/// What a conditional does to a match: the nodes of its first branch whose
/// condition holds, or of its `else` where none before it holds, are run on
/// what is left of the line, with no names bound, and what they bind is
/// added. The line stays as it was.
pub open spec fn cond_step(branches: Seq<crate::parser::CondView>, st: Flow, fs: Seq<Filter>) -> Flow {
    match first_satisfied(branches, st.row, 0) {
        Some(j) => if 0 <= j < branches.len() {
            match spec_combine(branches[j].2, 0, Flow { row: Map::empty(), ..st }, fs) {
                Outcome::Matched(inner) => Flow {
                    input: st.input,
                    row: st.row.union_prefer_right(inner.row),
                    pending: inner.pending,
                },
                Outcome::Missed { pending, .. } => Flow { pending, ..st },
            }
        } else {
            st
        },
        None => st,
    }
}

/// What a loop does to a match: over a range with both ends given it runs
/// its rounds; any other loop does nothing.
pub open spec fn loop_step(iter: ExprView, body: Seq<NodeView>, st: Flow, fs: Seq<Filter>) -> Flow {
    match loop_range(iter, st.row) {
        Some((from, to)) => spec_loop(body, from as int, to as int, st, fs),
        None => st,
    }
}

/// Whether a branch is taken on a row. A branch without a condition, an
/// `else`, is always taken. A comparison is taken where it holds of the
/// row. A condition that is no comparison never holds.
pub open spec fn satisfied(cond: Option<ExprView>, row: Map<Seq<u8>, Seq<u8>>) -> bool {
    match cond {
        None => true,
        Some(ExprView::BinOp(op, left, right)) => spec_bin_op(row, op, *left, *right),
        Some(_) => false,
    }
}

/// The first branch from place `j` on that is taken on the row.
pub open spec fn first_satisfied(
    branches: Seq<crate::parser::CondView>,
    row: Map<Seq<u8>, Seq<u8>>,
    j: int,
) -> Option<int>
    decreases branches.len() - j,
{
    if j < 0 || j >= branches.len() {
        None
    } else if satisfied(branches[j].1, row) {
        Some(j)
    } else {
        first_satisfied(branches, row, j + 1)
    }
}

/// The number that an expression gives as a bound of a loop: 0 where it
/// stands for no number that fits into 32 bits.
pub open spec fn bound(row: Map<Seq<u8>, Seq<u8>>, e: ExprView) -> u32 {
    match operand(row, e) {
        Some(t) => match number_value(t) {
            Some(v) => if v <= u32::MAX {
                v as u32
            } else {
                0
            },
            None => 0,
        },
        None => 0,
    }
}

/// The first and the last-but-one number of a loop over a range with both
/// ends given. Other loops are not run.
pub open spec fn loop_range(iter: ExprView, row: Map<Seq<u8>, Seq<u8>>) -> Option<(u32, u32)> {
    match iter {
        ExprView::Range(op, Some(from), Some(to)) => if op == word_range() {
            Some((bound(row, *from), bound(row, *to)))
        } else {
            None
        },
        _ => None,
    }
}

/// What stands before the names bound in round `n` of a loop: `i`, the
/// number, and an underscore.
pub open spec fn key_prefix(n: u32) -> Seq<u8> {
    "i".spec_bytes() + crate::number::digits_of(n as nat) + "_".spec_bytes()
}

/// `key` is the prefix `p` and a name of `inner`.
pub open spec fn is_prefixed(inner: Map<Seq<u8>, Seq<u8>>, p: Seq<u8>, key: Seq<u8>) -> bool {
    p.is_prefix_of(key) && inner.dom().contains(key.skip(p.len() as int))
}

/// The row `outer` with what `inner` holds, each name of `inner` with `p`
/// before it.
pub open spec fn merge_prefixed(
    outer: Map<Seq<u8>, Seq<u8>>,
    inner: Map<Seq<u8>, Seq<u8>>,
    p: Seq<u8>,
) -> Map<Seq<u8>, Seq<u8>> {
    Map::new(
        |key: Seq<u8>| outer.dom().contains(key) || is_prefixed(inner, p, key),
        |key: Seq<u8>|
            if is_prefixed(inner, p, key) {
                inner[key.skip(p.len() as int)]
            } else {
                outer[key]
            },
    )
}

/// The match of the nodes from place `i` on. A literal has to stand at the
/// front of what is left of the line, else the match is a miss. An
/// expression tag takes its part of the line. A conditional runs the nodes
/// of its first branch whose condition holds, or of its `else` where none
/// before it holds, on what is left of the line and with no names bound, and
/// adds what they bind; the line stays as it was. A loop over a range runs
/// its body once for each number.
#[verifier::opaque]
pub open spec fn spec_combine(nodes: Seq<NodeView>, i: int, st: Flow, fs: Seq<Filter>) -> Outcome
    decreases nodes, 0int, nodes.len() - i,
{
    if i < 0 || i >= nodes.len() {
        Outcome::Matched(st)
    } else {
        let next = if i + 1 < nodes.len() {
            Some(nodes[i + 1])
        } else {
            None
        };
        match nodes[i] {
            NodeView::Lit(a, b, c) => {
                let lit = a + b + c;
                if tag_at(st.input, 0, lit) {
                    spec_combine(
                        nodes,
                        i + 1,
                        Flow { input: st.input.skip(lit.len() as int), ..st },
                        fs,
                    )
                } else {
                    Outcome::Missed { input: st.input, pending: st.pending }
                }
            },
            NodeView::Expr(_, e) => {
                let (input, row) = expr_step(e, literal_of(next), st.input, st.row, fs);
                spec_combine(nodes, i + 1, Flow { input, row, pending: st.pending }, fs)
            },
            NodeView::Cond(branches, _) => {
                let after = match first_satisfied(branches, st.row, 0) {
                    Some(j) => if 0 <= j < branches.len() {
                        match spec_combine(
                            branches[j].2,
                            0,
                            Flow { row: Map::empty(), ..st },
                            fs,
                        ) {
                            Outcome::Matched(inner) => Flow {
                                input: st.input,
                                row: st.row.union_prefer_right(inner.row),
                                pending: inner.pending,
                            },
                            Outcome::Missed { pending, .. } => Flow { pending, ..st },
                        }
                    } else {
                        st
                    },
                    None => st,
                };
                spec_combine(nodes, i + 1, after, fs)
            },
            NodeView::Loop(_, _, iter, body, _) => {
                let after = match loop_range(iter, st.row) {
                    Some((from, to)) => spec_loop(body, from as int, to as int, st, fs),
                    None => st,
                };
                spec_combine(nodes, i + 1, after, fs)
            },
        }
    }
}

/// The rounds of a loop from number `n` up to `to`, which is left out. Each
/// round runs the body on what is left of the line, with no names bound,
/// and adds what it binds, each name with the prefix of the round. Then the
/// next line is pulled from the queue and takes the place of the line.
#[verifier::opaque]
pub open spec fn spec_loop(body: Seq<NodeView>, n: int, to: int, st: Flow, fs: Seq<Filter>) -> Flow
    decreases body, 1int, to - n,
{
    if n >= to || n < 0 || n > u32::MAX {
        st
    } else {
        let (row, pending) = match spec_combine(body, 0, Flow { row: Map::empty(), ..st }, fs) {
            Outcome::Matched(inner) => (
                merge_prefixed(st.row, inner.row, key_prefix(n as u32)),
                inner.pending,
            ),
            Outcome::Missed { pending, .. } => (st.row, pending),
        };
        let (line, rest) = pull_line(pending);
        spec_loop(body, n + 1, to, Flow { input: line, row, pending: rest }, fs)
    }
}

/// The kinds of a miss. There is one: a literal does not stand at the front
/// of what is left of the line.
#[derive(Debug, Clone, Copy, PartialEq, Eq)]
pub enum ErrorKind {
    Eof,
}

/// A miss: what was left of the line when a literal did not match, and the
/// kind of the miss.
#[derive(Debug, PartialEq, Eq)]
pub struct MatchError {
    pub input: Vec<u8>,
    pub kind: ErrorKind,
}

/// The answer `r` of a match and the messages left in the queue are the
/// outcome `o`.
pub open spec fn combined(
    r: Result<(Vec<u8>, Row), MatchError>,
    pending: Seq<Message>,
    o: Outcome,
) -> bool {
    match r {
        Ok((rest, row)) => o == Outcome::Matched(Flow { input: rest@, row: row@, pending }),
        Err(e) => o == (Outcome::Missed { input: e.input@, pending }),
    }
}

/// The view of a name that may be missing.
pub open spec fn option_name(a: Option<&[u8]>) -> Option<Seq<u8>> {
    match a {
        Some(x) => Some(x@),
        None => None,
    }
}

/// A prefix stands before what it is put before, and what follows it there
/// is what it was put before.
pub proof fn lemma_prefixed(p: Seq<u8>, k: Seq<u8>, key: Seq<u8>)
    ensures
        p.is_prefix_of(p + k),
        (p + k).skip(p.len() as int) == k,
        p.is_prefix_of(key) && key.skip(p.len() as int) == k ==> key == p + k,
{
    assert((p + k).subrange(0, p.len() as int) =~= p);
    assert((p + k).skip(p.len() as int) =~= k);
    if p.is_prefix_of(key) && key.skip(p.len() as int) == k {
        assert(key =~= p + k);
    }
}

/// One more name in the inner row is one more prefixed name in the merged
/// row.
pub proof fn lemma_merge_prefixed_insert(
    outer: Map<Seq<u8>, Seq<u8>>,
    inner: Map<Seq<u8>, Seq<u8>>,
    p: Seq<u8>,
    k: Seq<u8>,
    v: Seq<u8>,
)
    ensures
        merge_prefixed(outer, inner, p).insert(p + k, v) == merge_prefixed(
            outer,
            inner.insert(k, v),
            p,
        ),
{
    let left = merge_prefixed(outer, inner, p).insert(p + k, v);
    let right = merge_prefixed(outer, inner.insert(k, v), p);
    assert forall|key: Seq<u8>| left.dom().contains(key) <==> right.dom().contains(key) by {
        lemma_prefixed(p, k, key);
    }
    assert forall|key: Seq<u8>| left.dom().contains(key) implies left[key] == right[key] by {
        lemma_prefixed(p, k, key);
    }
    assert(left =~= right);
}

/// Adds to the row `h` what `inner` holds, each name with the prefix of
/// round `n` of a loop before it.
fn add_prefixed(h: &mut Row, inner: &Row, n: u32)
    ensures
        final(h)@ == merge_prefixed(old(h)@, inner@, key_prefix(n)),
{
    let mut prefix: Vec<u8> = copy("i".as_bytes());
    let digits = crate::number::decimal(n);
    prefix.extend_from_slice(digits.as_slice());
    prefix.extend_from_slice("_".as_bytes());
    assert(prefix@ =~= key_prefix(n));
    let ghost outer = h@;
    let count = inner.len();
    let mut i: usize = 0;
    proof {
        crate::row::lemma_pairs_map_empty();
        assert(inner.pairs().take(0) =~= Seq::<crate::row::Pair>::empty());
        assert(merge_prefixed(outer, Map::<Seq<u8>, Seq<u8>>::empty(), prefix@) =~= outer);
    }
    while i < count
        invariant
            i <= count,
            count == inner.pairs().len(),
            crate::row::sorted_keys(inner.pairs()),
            prefix@ == key_prefix(n),
            h@ == merge_prefixed(
                outer,
                crate::row::pairs_map(inner.pairs().take(i as int)),
                prefix@,
            ),
        decreases count - i,
    {
        let mut key = copy(prefix.as_slice());
        key.extend_from_slice(inner.key(i).as_slice());
        let value = copy(inner.value(i).as_slice());
        proof {
            assert(key@ == prefix@ + inner.pairs()[i as int].0);
            assert(value@ == inner.pairs()[i as int].1);
            crate::row::lemma_take_push(inner.pairs(), i as int);
            lemma_merge_prefixed_insert(
                outer,
                crate::row::pairs_map(inner.pairs().take(i as int)),
                prefix@,
                inner.pairs()[i as int].0,
                value@,
            );
        }
        h.insert(key, value);
        i += 1;
    }
    assert(inner.pairs().take(count as int) =~= inner.pairs());
}

/// Lets a variable take its part of the input and binds it to the name,
/// where one is given, as the filter leaves it.
fn bind(input: &mut Vec<u8>, h: &mut Row, key: Option<&[u8]>, next: Option<&Node>, f: Option<Filter>)
    ensures
        (final(input)@, final(h)@) == bind_step(
            old(input)@,
            old(h)@,
            option_name(key),
            literal_of(node_option_view(next)),
            f,
        ),
{
    let mut rest: Vec<u8> = Vec::new();
    match token_expr(input.as_slice(), next) {
        Some((left, hit)) => {
            rest = copy(left);
            if let Some(name) = key {
                let value = match f {
                    Some(f) => f.apply(hit),
                    None => copy(hit),
                };
                h.insert(copy(name), value);
            }
        },
        None => {},
    }
    *input = rest;
}

/// Does what an expression tag asks for, `next` being the node after it.
fn step_expr(e: &Expr, next: Option<&Node>, input: &mut Vec<u8>, h: &mut Row, filters: &Registry)
    ensures
        (final(input)@, final(h)@) == expr_step(
            e@,
            literal_of(node_option_view(next)),
            old(input)@,
            old(h)@,
            filters@,
        ),
{
    match e {
        Expr::Filter(name, args) => {
            proof {
                crate::expr::lemma_filter_view(name, *args);
            }
            if same(name, "skip".as_bytes()) {
                bind(input, h, None, next, None);
            } else {
                let found = filters.lookup(name);
                if args.len() > 0 {
                    match (found, &args[0]) {
                        (Some(f), Expr::Var(key)) => {
                            bind(input, h, Some(key), next, Some(f));
                        },
                        _ => {},
                    }
                }
            }
        },
        Expr::Var(key) => {
            bind(input, h, Some(key), next, None);
        },
        _ => {},
    }
}

/// Finds the first branch that is taken on the row.
fn find_branch(branches: &Vec<crate::ast::Cond>, h: &Row) -> (r: Option<usize>)
    ensures
        match r {
            Some(j) => j < branches@.len() && first_satisfied(
                crate::parser::conds_view(branches@),
                h@,
                0,
            ) == Some(j as int),
            None => first_satisfied(crate::parser::conds_view(branches@), h@, 0) is None,
        },
{
    let ghost views = crate::parser::conds_view(branches@);
    let mut j: usize = 0;
    while j < branches.len()
        invariant
            j <= branches@.len(),
            views == crate::parser::conds_view(branches@),
            first_satisfied(views, h@, 0) == first_satisfied(views, h@, j as int),
        decreases branches@.len() - j,
    {
        let holds = match &branches[j].1 {
            None => true,
            Some(Expr::BinOp(op, left, right)) => TokenExpr::bin_op(h, op, left, right),
            Some(_) => false,
        };
        if holds {
            return Some(j);
        }
        j += 1;
    }
    None
}

/// The number that an expression gives as a bound of a loop.
fn loop_bound(h: &Row, e: &Expr) -> (r: u32)
    ensures
        r == bound(h@, e@),
{
    match TokenExpr::get_variable(h, e) {
        Some(t) => match parse_number(t.as_slice()) {
            Some(v) => if v <= u32::MAX as u64 {
                v as u32
            } else {
                0
            },
            None => 0,
        },
        None => 0,
    }
}

/// Tells whether two texts that may be missing are the same.
fn same_option(a: &Option<Vec<u8>>, b: &Option<Vec<u8>>) -> (r: bool)
    ensures
        r == (match (a, b) {
            (Some(x), Some(y)) => x@ == y@,
            (None, None) => true,
            _ => false,
        }),
{
    match (a, b) {
        (Some(x), Some(y)) => same(x.as_slice(), y.as_slice()),
        (None, None) => true,
        _ => false,
    }
}

/// The view of a text that may be missing.
pub open spec fn option_text(a: Option<Vec<u8>>) -> Option<Seq<u8>> {
    match a {
        Some(x) => Some(x@),
        None => None,
    }
}

impl TokenExpr {
    /// The text that an expression stands for in a condition.
    pub fn get_variable(h: &Row, expr: &Expr) -> (r: Option<Vec<u8>>)
        ensures
            option_text(r) == operand(h@, expr@),
    {
        match expr {
            Expr::Var(n) => match h.get(n) {
                Some(v) => Some(copy(v.as_slice())),
                None => None,
            },
            Expr::NumLit(num) => Some(copy(num)),
            Expr::StrLit(s) => Some(copy(s)),
            _ => None,
        }
    }

    /// The number that an expression stands for in a comparison.
    fn get_number(h: &Row, expr: &Expr) -> (r: Option<Option<Decimal>>)
        ensures
            r == number_operand(h@, expr@),
            r matches Some(Some(d)) ==> d.wf(),
    {
        match TokenExpr::get_variable(h, expr) {
            None => Some(None),
            Some(t) => match parse_decimal(t.as_slice()) {
                Some(v) => Some(Some(v)),
                None => None,
            },
        }
    }

    /// Tells whether a comparison holds of a row.
    pub fn bin_op(h: &Row, op: &[u8], left: &Expr, right: &Expr) -> (r: bool)
        ensures
            r == spec_bin_op(h@, op@, left@, right@),
    {
        if same(op, "==".as_bytes()) {
            let l = TokenExpr::get_variable(h, left);
            let r = TokenExpr::get_variable(h, right);
            same_option(&l, &r)
        } else if same(op, "!=".as_bytes()) {
            let l = TokenExpr::get_variable(h, left);
            let r = TokenExpr::get_variable(h, right);
            !same_option(&l, &r)
        } else {
            let a = match TokenExpr::get_number(h, left) {
                Some(a) => a,
                None => {
                    return false;
                },
            };
            let b = match TokenExpr::get_number(h, right) {
                Some(b) => b,
                None => {
                    return false;
                },
            };
            if same(op, ">".as_bytes()) {
                TokenExpr::comes_before(b, a)
            } else if same(op, "<".as_bytes()) {
                TokenExpr::comes_before(a, b)
            } else if same(op, ">=".as_bytes()) {
                !TokenExpr::comes_before(a, b)
            } else if same(op, "<=".as_bytes()) {
                !TokenExpr::comes_before(b, a)
            } else {
                false
            }
        }
    }

    /// Tells whether `a` comes before `b` in the order of comparisons.
    fn comes_before(a: Option<Decimal>, b: Option<Decimal>) -> (r: bool)
        requires
            a matches Some(x) ==> x.wf(),
            b matches Some(y) ==> y.wf(),
        ensures
            r == before(a, b),
    {
        match (a, b) {
            (None, Some(_)) => true,
            (Some(x), Some(y)) => x.less(&y),
            _ => false,
        }
    }

    /// Binds the nodes of a compiled template against the line `input`.
    /// Gives what is left of the line and the row of the names bound, or a
    /// miss where a literal does not match. Lines that a loop asks for are
    /// pulled from the queue `rx`.
    pub fn parse_token<'a>(
        rx: &mut VecDeque<InputToken>,
        input: &[u8],
        tokens: &Vec<Node<'a>>,
        filters: &Registry,
    ) -> (r: Result<(Vec<u8>, Row), MatchError>)
        ensures
            combined(
                r,
                messages(final(rx)@),
                spec_combine(
                    nodes_view(tokens@),
                    0,
                    start(input@, messages(old(rx)@)),
                    filters@,
                ),
            ),
        decreases tokens, 0int,
    {
        let ghost nodes = nodes_view(tokens@);
        let ghost whole = spec_combine(nodes, 0, start(input@, messages(rx@)), filters@);
        let mut left = copy(input);
        let mut h = Row::new();
        let mut idx: usize = 0;
        while idx < tokens.len()
            invariant
                idx <= tokens@.len(),
                nodes == nodes_view(tokens@),
                whole == spec_combine(nodes, 0, start(input@, messages(old(rx)@)), filters@),
                whole == spec_combine(
                    nodes,
                    idx as int,
                    flow(left@, h@, messages(rx@)),
                    filters@,
                ),
            decreases tokens@.len() - idx,
        {
            proof {
                reveal(spec_combine);
                reveal(spec_loop);
                assert(nodes[idx as int] == tokens@[idx as int]@);
            }
            match &tokens[idx] {
                Node::Lit(a, b, c) => {
                    let lit = literal_text(a, b, c);
                    let rest = match begins_with(left.as_slice(), lit.as_slice()) {
                        Some(rest) => copy(rest),
                        None => {
                            return Err(MatchError { input: left, kind: ErrorKind::Eof });
                        },
                    };
                    left = rest;
                },
                Node::Expr(_, e) => {
                    let next = if tokens.len() - idx > 1 {
                        Some(&tokens[idx + 1])
                    } else {
                        None
                    };
                    proof {
                        if idx + 1 < tokens@.len() {
                            assert(nodes[idx + 1] == tokens@[idx + 1]@);
                        }
                    }
                    step_expr(e, next, &mut left, &mut h, filters);
                },
                Node::Cond(branches, ws) => {
                    proof {
                        crate::parser::lemma_cond_node_view(*branches, *ws);
                    }
                    TokenExpr::step_cond(rx, branches, left.as_slice(), &mut h, filters);
                },
                Node::Loop(open, target, iter, body, close) => {
                    proof {
                        crate::parser::lemma_loop_node_view(*open, *target, *iter, *body, *close);
                    }
                    TokenExpr::run_loop(rx, iter, body, &mut left, &mut h, filters);
                },
            }
            idx += 1;
        }
        proof {
            reveal(spec_combine);
        }
        Ok((left, h))
    }

    /// Runs the first branch of a conditional that is taken on the row, and
    /// adds to the row what it binds.
    fn step_cond<'a>(
        rx: &mut VecDeque<InputToken>,
        branches: &Vec<crate::ast::Cond<'a>>,
        input: &[u8],
        h: &mut Row,
        filters: &Registry,
    )
        ensures
            flow(input@, final(h)@, messages(final(rx)@)) == cond_step(
                crate::parser::conds_view(branches@),
                flow(input@, old(h)@, messages(old(rx)@)),
                filters@,
            ),
        decreases branches, 1int,
    {
        match find_branch(branches, h) {
            Some(j) => {
                match TokenExpr::parse_token(rx, input, &branches[j].2, filters) {
                    Ok((_, inner)) => {
                        let merged = TokenExpr::merge(h, &inner);
                        *h = merged;
                    },
                    Err(_) => {},
                }
            },
            None => {},
        }
    }

    /// Runs the rounds of a loop over a range with both ends given.
    fn run_loop<'a>(
        rx: &mut VecDeque<InputToken>,
        iter: &Expr,
        body: &Vec<Node<'a>>,
        input: &mut Vec<u8>,
        h: &mut Row,
        filters: &Registry,
    )
        ensures
            flow(final(input)@, final(h)@, messages(final(rx)@)) == loop_step(
                iter@,
                nodes_view(body@),
                flow(old(input)@, old(h)@, messages(old(rx)@)),
                filters@,
            ),
        decreases body, 1int,
    {
        match iter {
            Expr::Range(op, Some(from), Some(to)) => {
                if same(op, "..".as_bytes()) {
                    let first = loop_bound(h, from);
                    let last = loop_bound(h, to);
                    let ghost whole = spec_loop(
                        nodes_view(body@),
                        first as int,
                        last as int,
                        flow(input@, h@, messages(rx@)),
                        filters@,
                    );
                    let mut n: u32 = first;
                    while n < last
                        invariant
                            whole == spec_loop(
                                nodes_view(body@),
                                n as int,
                                last as int,
                                flow(input@, h@, messages(rx@)),
                                filters@,
                            ),
                        decreases last - n,
                    {
                        proof {
                            reveal(spec_loop);
                            reveal(spec_combine);
                        }
                        match TokenExpr::parse_token(rx, input.as_slice(), body, filters) {
                            Ok((_, inner)) => {
                                add_prefixed(h, &inner, n);
                            },
                            Err(_) => {},
                        }
                        let line = read_line(rx);
                        *input = line;
                        n += 1;
                    }
                    proof {
                        reveal(spec_loop);
                    }
                }
            },
            _ => {},
        }
    }

    /// The row that holds what the two rows hold, with the values of the
    /// second where both hold a name.
    pub fn merge(first_context: &Row, second_context: &Row) -> (r: Row)
        ensures
            r@ == first_context@.union_prefer_right(second_context@),
    {
        let mut new_context = Row::new();
        let mut i: usize = 0;
        let n = first_context.len();
        proof {
            crate::row::lemma_pairs_map_empty();
            assert(first_context.pairs().take(0) =~= Seq::<crate::row::Pair>::empty());
        }
        while i < n
            invariant
                i <= n,
                n == first_context.pairs().len(),
                crate::row::sorted_keys(first_context.pairs()),
                new_context@ == crate::row::pairs_map(first_context.pairs().take(i as int)),
            decreases n - i,
        {
            let key = copy(first_context.key(i).as_slice());
            let value = copy(first_context.value(i).as_slice());
            proof {
                crate::row::lemma_take_push(first_context.pairs(), i as int);
            }
            new_context.insert(key, value);
            i += 1;
        }
        assert(first_context.pairs().take(n as int) =~= first_context.pairs());
        let m = second_context.len();
        let mut j: usize = 0;
        proof {
            assert(second_context.pairs().take(0) =~= Seq::<crate::row::Pair>::empty());
            assert(first_context@.union_prefer_right(Map::<Seq<u8>, Seq<u8>>::empty())
                =~= first_context@);
        }
        while j < m
            invariant
                j <= m,
                m == second_context.pairs().len(),
                crate::row::sorted_keys(second_context.pairs()),
                new_context@ == first_context@.union_prefer_right(
                    crate::row::pairs_map(second_context.pairs().take(j as int)),
                ),
            decreases m - j,
        {
            let key = copy(second_context.key(j).as_slice());
            let value = copy(second_context.value(j).as_slice());
            proof {
                crate::row::lemma_take_push(second_context.pairs(), j as int);
                let part = crate::row::pairs_map(second_context.pairs().take(j as int));
                assert(first_context@.union_prefer_right(part).insert(key@, value@)
                    =~= first_context@.union_prefer_right(part.insert(key@, value@)));
            }
            new_context.insert(key, value);
            j += 1;
        }
        assert(second_context.pairs().take(m as int) =~= second_context.pairs());
        new_context
    }
}

} // verus!
