//! The token evaluator: a template is applied to the stream of lines, once
//! or as often as its mode says, and gives the rows of the lines that
//! matched.

use vstd::prelude::*;
use std::collections::VecDeque;
use crate::app::{Mode, TokenExpr};
use crate::ast::{nodes_view, Expr, ExprView, Node, NodeView, Syntax, SyntaxView};
use crate::combinator::{
    combined, spec_combine, spec_loop, start, Flow, MatchError, Outcome,
};
use crate::filters::{Filter, Registry};
use crate::parser::{parse_template, spec_parse_template, ParseError};
use crate::row::Row;
use crate::stream::{messages, pull_line, InputToken, Message};

verus! {

/// `after` is what is left of `before` when some of its first messages
/// have been taken.
pub open spec fn is_rest_of(after: Seq<Message>, before: Seq<Message>) -> bool {
    exists|k: int| 0 <= k <= before.len() && after == #[trigger] before.skip(k)
}

/// The messages that wait in the queue after a match.
pub open spec fn pending_of(o: Outcome) -> Seq<Message> {
    match o {
        Outcome::Matched(f) => f.pending,
        Outcome::Missed { pending, .. } => pending,
    }
}

/// What is left of what is left is what is left.
pub proof fn lemma_rest_of_rest(a: Seq<Message>, b: Seq<Message>, c: Seq<Message>)
    requires
        is_rest_of(a, b),
        is_rest_of(b, c),
    ensures
        is_rest_of(a, c),
        a.len() <= c.len(),
{
    let k1 = choose|k: int| 0 <= k <= b.len() && a == #[trigger] b.skip(k);
    let k2 = choose|k: int| 0 <= k <= c.len() && b == #[trigger] c.skip(k);
    assert(c.skip(k2).skip(k1) =~= c.skip(k1 + k2));
}

/// All messages are left of themselves.
pub proof fn lemma_rest_of_self(a: Seq<Message>)
    ensures
        is_rest_of(a, a),
{
    assert(a.skip(0) =~= a);
}

/// A match takes messages from the front of the queue only: what waits in
/// the queue after it is what was left of the queue before it.
pub proof fn lemma_combine_takes_from_front(nodes: Seq<NodeView>, i: int, st: Flow, fs: Seq<Filter>)
    ensures
        is_rest_of(pending_of(spec_combine(nodes, i, st, fs)), st.pending),
    decreases nodes, 0int, nodes.len() - i,
{
    reveal(spec_combine);
    reveal(spec_loop);
    lemma_rest_of_self(st.pending);
    if 0 <= i < nodes.len() {
        match nodes[i] {
            NodeView::Lit(a, b, c) => {
                let lit = a + b + c;
                if crate::text::tag_at(st.input, 0, lit) {
                    lemma_combine_takes_from_front(
                        nodes,
                        i + 1,
                        Flow { input: st.input.skip(lit.len() as int), ..st },
                        fs,
                    );
                }
            },
            NodeView::Expr(_, e) => {
                let next = if i + 1 < nodes.len() {
                    Some(nodes[i + 1])
                } else {
                    None
                };
                let (input, row) = crate::combinator::expr_step(
                    e,
                    crate::combinator::literal_of(next),
                    st.input,
                    st.row,
                    fs,
                );
                lemma_combine_takes_from_front(
                    nodes,
                    i + 1,
                    Flow { input, row, pending: st.pending },
                    fs,
                );
            },
            NodeView::Cond(branches, _) => {
                let after = crate::combinator::cond_step(branches, st, fs);
                match crate::combinator::first_satisfied(branches, st.row, 0) {
                    Some(j) => {
                        if 0 <= j < branches.len() {
                            lemma_combine_takes_from_front(
                                branches[j].2,
                                0,
                                Flow { row: Map::empty(), ..st },
                                fs,
                            );
                        }
                    },
                    None => {},
                }
                lemma_combine_takes_from_front(nodes, i + 1, after, fs);
                lemma_rest_of_rest(
                    pending_of(spec_combine(nodes, i + 1, after, fs)),
                    after.pending,
                    st.pending,
                );
            },
            NodeView::Loop(_, _, iter, body, _) => {
                let after = crate::combinator::loop_step(iter, body, st, fs);
                match crate::combinator::loop_range(iter, st.row) {
                    Some((from, to)) => {
                        lemma_loop_takes_from_front(body, from as int, to as int, st, fs);
                    },
                    None => {},
                }
                lemma_combine_takes_from_front(nodes, i + 1, after, fs);
                lemma_rest_of_rest(
                    pending_of(spec_combine(nodes, i + 1, after, fs)),
                    after.pending,
                    st.pending,
                );
            },
        }
    }
}

/// The rounds of a loop take messages from the front of the queue only.
pub proof fn lemma_loop_takes_from_front(
    body: Seq<NodeView>,
    n: int,
    to: int,
    st: Flow,
    fs: Seq<Filter>,
)
    ensures
        is_rest_of(spec_loop(body, n, to, st, fs).pending, st.pending),
    decreases body, 1int, to - n,
{
    reveal(spec_combine);
    reveal(spec_loop);
    lemma_rest_of_self(st.pending);
    if !(n >= to || n < 0 || n > u32::MAX) {
        let inner = spec_combine(body, 0, Flow { row: Map::empty(), ..st }, fs);
        lemma_combine_takes_from_front(body, 0, Flow { row: Map::empty(), ..st }, fs);
        let (row, pending) = match inner {
            Outcome::Matched(f) => (
                crate::combinator::merge_prefixed(
                    st.row,
                    f.row,
                    crate::combinator::key_prefix(n as u32),
                ),
                f.pending,
            ),
            Outcome::Missed { pending, .. } => (st.row, pending),
        };
        let (line, rest) = pull_line(pending);
        assert(is_rest_of(rest, pending)) by {
            if pending.len() > 0 && pending[0] is Line {
                assert(rest == pending.skip(1));
            } else {
                lemma_rest_of_self(pending);
            }
        }
        lemma_rest_of_rest(rest, pending, st.pending);
        let next = Flow { input: line, row, pending: rest };
        lemma_loop_takes_from_front(body, n + 1, to, next, fs);
        lemma_rest_of_rest(spec_loop(body, n + 1, to, next, fs).pending, rest, st.pending);
    }
}

/// The name of the filter of an expression, where it is a filter that the
/// registry does not hold. The filter `skip` is always known.
pub open spec fn unknown_filter(e: ExprView, fs: Seq<Filter>) -> Option<Seq<u8>> {
    match e {
        ExprView::Filter(name, _) => if name == crate::combinator::word_skip()
            || Registry::spec_lookup(fs, name) is Some {
            None
        } else {
            Some(name)
        },
        _ => None,
    }
}

/// The first filter, from node `i` on, that the registry does not hold. The
/// nodes inside conditionals and loops are looked through as well.
pub open spec fn first_unknown(nodes: Seq<NodeView>, i: int, fs: Seq<Filter>) -> Option<Seq<u8>>
    decreases nodes, 0int, nodes.len() - i,
{
    if i < 0 || i >= nodes.len() {
        None
    } else {
        let here = match nodes[i] {
            NodeView::Lit(_, _, _) => None,
            NodeView::Expr(_, e) => unknown_filter(e, fs),
            NodeView::Cond(branches, _) => first_unknown_branch(branches, 0, fs),
            NodeView::Loop(_, _, _, body, _) => first_unknown(body, 0, fs),
        };
        match here {
            Some(name) => Some(name),
            None => first_unknown(nodes, i + 1, fs),
        }
    }
}

/// The first filter, from branch `j` on, that the registry does not hold.
pub open spec fn first_unknown_branch(
    branches: Seq<crate::parser::CondView>,
    j: int,
    fs: Seq<Filter>,
) -> Option<Seq<u8>>
    decreases branches, 0int, branches.len() - j,
{
    if j < 0 || j >= branches.len() {
        None
    } else {
        match first_unknown(branches[j].2, 0, fs) {
            Some(name) => Some(name),
            None => first_unknown_branch(branches, j + 1, fs),
        }
    }
}

/// Why a template cannot be used.
#[derive(Debug, PartialEq, Eq)]
pub enum TemplateError {
    /// Some of its text is part of no node.
    Parse(ParseError),
    /// It names a filter that the registry does not hold.
    UnknownFilter(Vec<u8>),
}

/// What the contracts see of a [`TemplateError`].
pub enum TemplateFault {
    Parse(int),
    UnknownFilter(Seq<u8>),
}

impl View for TemplateError {
    type V = TemplateFault;

    open spec fn view(&self) -> TemplateFault {
        match self {
            TemplateError::Parse(e) => TemplateFault::Parse(e.offset as int),
            TemplateError::UnknownFilter(name) => TemplateFault::UnknownFilter(name@),
        }
    }
}

/// What compiling a template for use with a registry gives: its nodes,
/// where all of the text can be read and every filter is known.
pub open spec fn spec_compile(tag: Seq<u8>, y: SyntaxView, fs: Seq<Filter>) -> Result<
    Seq<NodeView>,
    TemplateFault,
> {
    match spec_parse_template(tag, y) {
        Ok(nodes) => match first_unknown(nodes, 0, fs) {
            Some(name) => Err(TemplateFault::UnknownFilter(name)),
            None => Ok(nodes),
        },
        Err(offset) => Err(TemplateFault::Parse(offset)),
    }
}

/// Looks for the first filter that the registry does not hold.
fn find_unknown<'a>(nodes: &Vec<Node<'a>>, filters: &Registry) -> (r: Option<&'a [u8]>)
    ensures
        crate::combinator::option_name(r) == first_unknown(nodes_view(nodes@), 0, filters@),
    decreases nodes, 0int,
{
    let ghost views = nodes_view(nodes@);
    let mut i: usize = 0;
    while i < nodes.len()
        invariant
            i <= nodes@.len(),
            views == nodes_view(nodes@),
            first_unknown(views, 0, filters@) == first_unknown(views, i as int, filters@),
        decreases nodes@.len() - i,
    {
        assert(views[i as int] == nodes@[i as int]@);
        let here: Option<&'a [u8]> = match &nodes[i] {
            Node::Lit(_, _, _) => None,
            Node::Expr(_, e) => match e {
                Expr::Filter(name, args) => {
                    proof {
                        crate::expr::lemma_filter_view(name, *args);
                    }
                    if crate::text::same(name, "skip".as_bytes()) || filters.lookup(name).is_some() {
                        None
                    } else {
                        Some(*name)
                    }
                },
                _ => None,
            },
            Node::Cond(branches, ws) => {
                proof {
                    crate::parser::lemma_cond_node_view(*branches, *ws);
                }
                find_unknown_branch(branches, filters)
            },
            Node::Loop(open, target, iter, body, close) => {
                proof {
                    crate::parser::lemma_loop_node_view(*open, *target, *iter, *body, *close);
                }
                find_unknown(body, filters)
            },
        };
        if here.is_some() {
            return here;
        }
        i += 1;
    }
    None
}

/// Looks through the branches of a conditional for the first filter that
/// the registry does not hold.
fn find_unknown_branch<'a>(branches: &Vec<crate::ast::Cond<'a>>, filters: &Registry) -> (r: Option<
    &'a [u8],
>)
    ensures
        crate::combinator::option_name(r) == first_unknown_branch(
            crate::parser::conds_view(branches@),
            0,
            filters@,
        ),
    decreases branches, 0int,
{
    let ghost views = crate::parser::conds_view(branches@);
    let mut j: usize = 0;
    while j < branches.len()
        invariant
            j <= branches@.len(),
            views == crate::parser::conds_view(branches@),
            first_unknown_branch(views, 0, filters@) == first_unknown_branch(
                views,
                j as int,
                filters@,
            ),
        decreases branches@.len() - j,
    {
        let here = find_unknown(&branches[j].2, filters);
        if here.is_some() {
            return here;
        }
        j += 1;
    }
    None
}

impl TokenExpr {
    /// Compiles the template for use with a registry of filters.
    pub fn compile<'a>(&'a self, syn: &Syntax, filters: &Registry) -> (r: Result<
        Vec<Node<'a>>,
        TemplateError,
    >)
        requires
            syn@.wf(),
        ensures
            match r {
                Ok(nodes) => spec_compile(self.tag@, syn@, filters@) == Ok::<
                    Seq<NodeView>,
                    TemplateFault,
                >(nodes_view(nodes@)),
                Err(e) => spec_compile(self.tag@, syn@, filters@) == Err::<
                    Seq<NodeView>,
                    TemplateFault,
                >(e@),
            },
    {
        match parse_template(self.tag.as_slice(), syn) {
            Ok(nodes) => match find_unknown(&nodes, filters) {
                Some(name) => Err(TemplateError::UnknownFilter(crate::text::copy(name))),
                None => Ok(nodes),
            },
            Err(e) => Err(TemplateError::Parse(e)),
        }
    }
}

/// What applying a template gave: whether the end of the stream was met,
/// the rows, and the messages that still wait in the queue.
pub struct Evaluated {
    pub terminated: bool,
    pub rows: Seq<Map<Seq<u8>, Seq<u8>>>,
    pub pending: Seq<Message>,
}

/// The result of applying a template with the given parts.
pub open spec fn evaluated(
    terminated: bool,
    rows: Seq<Map<Seq<u8>, Seq<u8>>>,
    pending: Seq<Message>,
) -> Evaluated {
    Evaluated { terminated, rows, pending }
}

/// The rows that a match gives: its row where names were bound, none
/// where it bound no name or was a miss.
pub open spec fn rows_of(o: Outcome) -> Seq<Map<Seq<u8>, Seq<u8>>> {
    match o {
        Outcome::Matched(f) => if f.row == Map::<Seq<u8>, Seq<u8>>::empty() {
            Seq::empty()
        } else {
            seq![f.row]
        },
        Outcome::Missed { .. } => Seq::empty(),
    }
}

/// The match of a compiled template against one line.
pub open spec fn match_line(
    nodes: Seq<NodeView>,
    line: Seq<u8>,
    pending: Seq<Message>,
    fs: Seq<Filter>,
) -> Outcome {
    spec_combine(nodes, 0, start(line, pending), fs)
}

/// What a template applied to line after line gives, once its first line
/// has matched: the rows of the lines up to the first that does not
/// match. That line is taken from the queue all the same. The end of the
/// stream ends the run at once; so does any other message that is no line.
pub open spec fn spec_many(nodes: Seq<NodeView>, pending: Seq<Message>, fs: Seq<Filter>) -> Evaluated
    decreases pending.len(),
{
    if pending.len() == 0 {
        evaluated(false, Seq::empty(), pending)
    } else {
        match pending[0] {
            Message::Line(text) => {
                let o = match_line(nodes, text, pending.skip(1), fs);
                match o {
                    Outcome::Matched(f) => if f.pending.len() < pending.len() {
                        let rest = spec_many(nodes, f.pending, fs);
                        evaluated(rest.terminated, rows_of(o) + rest.rows, rest.pending)
                    } else {
                        evaluated(false, rows_of(o), f.pending)
                    },
                    Outcome::Missed { pending: left, .. } => evaluated(false, Seq::empty(), left),
                }
            },
            m => evaluated(m.is_end(), Seq::empty(), pending.skip(1)),
        }
    }
}

/// What a template applied to `n` further lines gives, once its first line
/// has matched: the rows of those of the lines that match. A line that
/// does not match is taken from the queue and counts. The end of the stream
/// ends the run at once; so does any other message that is no line.
pub open spec fn spec_count(
    nodes: Seq<NodeView>,
    n: nat,
    pending: Seq<Message>,
    fs: Seq<Filter>,
) -> Evaluated
    decreases n,
{
    if n == 0 || pending.len() == 0 {
        evaluated(false, Seq::empty(), pending)
    } else {
        match pending[0] {
            Message::Line(text) => {
                let o = match_line(nodes, text, pending.skip(1), fs);
                let rest = spec_count(nodes, (n - 1) as nat, pending_of(o), fs);
                evaluated(rest.terminated, rows_of(o) + rest.rows, rest.pending)
            },
            m => evaluated(m.is_end(), Seq::empty(), pending.skip(1)),
        }
    }
}

/// What applying a compiled template to the stream gives. The first message
/// is taken from the queue. Where it is a line that matches, its row is the
/// first row, and the mode says what follows: nothing, further lines up to
/// the count, or line after line. Where it is a line that does not match,
/// there are no rows. The end of the stream ends the run and is told. A
/// count of 0 takes nothing from the queue.
pub open spec fn spec_evaluate(
    nodes: Seq<NodeView>,
    mode: Mode,
    pending: Seq<Message>,
    fs: Seq<Filter>,
) -> Evaluated {
    if mode == Mode::Count(0) || pending.len() == 0 {
        evaluated(false, Seq::empty(), pending)
    } else {
        match pending[0] {
            Message::Line(text) => {
                let o = match_line(nodes, text, pending.skip(1), fs);
                match o {
                    Outcome::Matched(f) => {
                        let rest = match mode {
                            Mode::Once => evaluated(false, Seq::empty(), f.pending),
                            Mode::Count(n) => spec_count(nodes, (n - 1) as nat, f.pending, fs),
                            Mode::Many => spec_many(nodes, f.pending, fs),
                        };
                        evaluated(rest.terminated, rows_of(o) + rest.rows, rest.pending)
                    },
                    Outcome::Missed { pending: left, .. } => evaluated(false, Seq::empty(), left),
                }
            },
            m => evaluated(m.is_end(), Seq::empty(), pending.skip(1)),
        }
    }
}

/// The rows of a list, as maps.
pub open spec fn rows_view(rows: Seq<Row>) -> Seq<Map<Seq<u8>, Seq<u8>>> {
    Seq::new(rows.len(), |i: int| rows[i]@)
}

/// What the first message of the queue asks for.
enum Pulled {
    /// A line, matched against the template.
    Line(Result<(Vec<u8>, Row), MatchError>),
    /// The end of the stream.
    End,
    /// Nothing more: the message was no line, or there was none.
    Stop,
}

/// Takes the first message from the queue and, where it is a line, matches
/// the compiled template against it.
fn pull_and_match<'a>(
    rx: &mut VecDeque<InputToken>,
    nodes: &Vec<Node<'a>>,
    filters: &Registry,
) -> (r: Pulled)
    ensures
        messages(final(rx)@).len() <= messages(old(rx)@).len(),
        old(rx)@.len() > 0 ==> messages(final(rx)@).len() < messages(old(rx)@).len(),
        match r {
            Pulled::Line(m) => messages(old(rx)@).len() > 0 && (messages(old(rx)@)[0] matches Message::Line(
                text,
            ) && combined(
                m,
                messages(final(rx)@),
                match_line(nodes_view(nodes@), text, messages(old(rx)@).skip(1), filters@),
            )),
            Pulled::End => messages(old(rx)@).len() > 0 && messages(old(rx)@)[0].is_end()
                && messages(final(rx)@) == messages(old(rx)@).skip(1),
            Pulled::Stop => if messages(old(rx)@).len() == 0 {
                messages(final(rx)@) == messages(old(rx)@)
            } else {
                !(messages(old(rx)@)[0] is Line) && !messages(old(rx)@)[0].is_end() && messages(
                    final(rx)@,
                ) == messages(old(rx)@).skip(1)
            },
        },
{
    let ghost before = rx@;
    match rx.pop_front() {
        None => Pulled::Stop,
        Some(token) => {
            assert(messages(rx@) =~= messages(before).skip(1));
            assert(messages(before)[0] == token@);
            match token {
                InputToken::Channel(text) => {
                    let ghost waiting = messages(rx@);
                    let m = TokenExpr::parse_token(rx, text.as_slice(), nodes, filters);
                    proof {
                        lemma_combine_takes_from_front(
                            nodes_view(nodes@),
                            0,
                            start(text@, waiting),
                            filters@,
                        );
                        lemma_rest_of_self(waiting);
                        lemma_rest_of_rest(messages(rx@), waiting, waiting);
                    }
                    Pulled::Line(m)
                },
                other => if other.is_end_of_stream() {
                    Pulled::End
                } else {
                    Pulled::Stop
                },
            }
        },
    }
}

/// Adds to the rows the row of a match, where it bound names.
fn keep_row(rows: &mut Vec<Row>, row: Row)
    ensures
        rows_view(final(rows)@) == rows_view(old(rows)@) + (if row@ == Map::<
            Seq<u8>,
            Seq<u8>,
        >::empty() {
            Seq::<Map<Seq<u8>, Seq<u8>>>::empty()
        } else {
            seq![row@]
        }),
{
    let ghost before = rows_view(rows@);
    if row.is_empty() {
        assert(before + Seq::<Map<Seq<u8>, Seq<u8>>>::empty() =~= before);
    } else {
        let ghost this = row@;
        rows.push(row);
        assert(rows_view(rows@) =~= before + seq![this]);
    }
}

/// The result `e` with the rows `rows` before its own.
pub open spec fn with_rows(rows: Seq<Map<Seq<u8>, Seq<u8>>>, e: Evaluated) -> Evaluated {
    evaluated(e.terminated, rows + e.rows, e.pending)
}

/// Applies the compiled template to line after line, and adds the rows to
/// `results`. Tells whether the end of the stream was met.
fn run_many<'a>(
    nodes: &Vec<Node<'a>>,
    rx: &mut VecDeque<InputToken>,
    filters: &Registry,
    results: &mut Vec<Row>,
) -> (terminated: bool)
    ensures
        evaluated(terminated, rows_view(final(results)@), messages(final(rx)@)) == with_rows(
            rows_view(old(results)@),
            spec_many(nodes_view(nodes@), messages(old(rx)@), filters@),
        ),
{
    let ghost target = with_rows(
        rows_view(results@),
        spec_many(nodes_view(nodes@), messages(rx@), filters@),
    );
    loop
        invariant
            target == with_rows(
                rows_view(old(results)@),
                spec_many(nodes_view(nodes@), messages(old(rx)@), filters@),
            ),
            target == with_rows(
                rows_view(results@),
                spec_many(nodes_view(nodes@), messages(rx@), filters@),
            ),
        decreases rx@.len(),
    {
        let ghost rows_before = rows_view(results@);
        let ghost waiting = messages(rx@);
        assert(rows_before + Seq::<Map<Seq<u8>, Seq<u8>>>::empty() =~= rows_before);
        match pull_and_match(rx, nodes, filters) {
            Pulled::Stop => {
                return false;
            },
            Pulled::End => {
                return true;
            },
            Pulled::Line(Err(_)) => {
                return false;
            },
            Pulled::Line(Ok((_, row))) => {
                let ghost this = row@;
                keep_row(results, row);
                proof {
                    let text = waiting[0]->Line_0;
                    let o = match_line(nodes_view(nodes@), text, waiting.skip(1), filters@);
                    let rest = spec_many(nodes_view(nodes@), messages(rx@), filters@);
                    assert((rows_before + rows_of(o)) + rest.rows =~= rows_before + (rows_of(o)
                        + rest.rows));
                }
            },
        }
    }
}

/// Applies the compiled template to `n` further lines, and adds the rows
/// to `results`. Tells whether the end of the stream was met.
fn run_count<'a>(
    nodes: &Vec<Node<'a>>,
    n: usize,
    rx: &mut VecDeque<InputToken>,
    filters: &Registry,
    results: &mut Vec<Row>,
) -> (terminated: bool)
    ensures
        evaluated(terminated, rows_view(final(results)@), messages(final(rx)@)) == with_rows(
            rows_view(old(results)@),
            spec_count(nodes_view(nodes@), n as nat, messages(old(rx)@), filters@),
        ),
{
    let ghost target = with_rows(
        rows_view(results@),
        spec_count(nodes_view(nodes@), n as nat, messages(rx@), filters@),
    );
    let mut left: usize = n;
    assert(rows_view(results@) + Seq::<Map<Seq<u8>, Seq<u8>>>::empty() =~= rows_view(results@));
    while left > 0
        invariant
            target == with_rows(
                rows_view(old(results)@),
                spec_count(nodes_view(nodes@), n as nat, messages(old(rx)@), filters@),
            ),
            target == with_rows(
                rows_view(results@),
                spec_count(nodes_view(nodes@), left as nat, messages(rx@), filters@),
            ),
        decreases left,
    {
        let ghost rows_before = rows_view(results@);
        let ghost waiting = messages(rx@);
        assert(rows_before + Seq::<Map<Seq<u8>, Seq<u8>>>::empty() =~= rows_before);
        match pull_and_match(rx, nodes, filters) {
            Pulled::Stop => {
                return false;
            },
            Pulled::End => {
                return true;
            },
            Pulled::Line(m) => {
                proof {
                    let text = waiting[0]->Line_0;
                    let o = match_line(nodes_view(nodes@), text, waiting.skip(1), filters@);
                    let rest = spec_count(
                        nodes_view(nodes@),
                        (left - 1) as nat,
                        messages(rx@),
                        filters@,
                    );
                    assert((rows_before + rows_of(o)) + rest.rows =~= rows_before + (rows_of(o)
                        + rest.rows));
                }
                match m {
                    Ok((_, row)) => {
                        keep_row(results, row);
                    },
                    Err(_) => {},
                }
            },
        }
        left -= 1;
    }
    assert(rows_view(results@) + Seq::<Map<Seq<u8>, Seq<u8>>>::empty() =~= rows_view(results@));
    false
}

/// Applies a compiled template to the stream in the given mode. Gives
/// whether the end of the stream was met, and the rows.
pub fn evaluate_nodes<'a>(
    nodes: &Vec<Node<'a>>,
    mode: Mode,
    rx: &mut VecDeque<InputToken>,
    filters: &Registry,
) -> (r: (bool, Vec<Row>))
    ensures
        evaluated(r.0, rows_view(r.1@), messages(final(rx)@)) == spec_evaluate(
            nodes_view(nodes@),
            mode,
            messages(old(rx)@),
            filters@,
        ),
{
    let mut results: Vec<Row> = Vec::new();
    assert(rows_view(results@) =~= Seq::<Map<Seq<u8>, Seq<u8>>>::empty());
    if let Mode::Count(0) = mode {
        return (false, results);
    }
    let ghost waiting = messages(rx@);
    match pull_and_match(rx, nodes, filters) {
        Pulled::Stop => (false, results),
        Pulled::End => (true, results),
        Pulled::Line(Err(_)) => (false, results),
        Pulled::Line(Ok((_, row))) => {
            keep_row(&mut results, row);
            proof {
                let text = waiting[0]->Line_0;
                let o = match_line(nodes_view(nodes@), text, waiting.skip(1), filters@);
                assert(rows_view(results@) =~= rows_of(o));
                assert(rows_of(o) + Seq::<Map<Seq<u8>, Seq<u8>>>::empty() =~= rows_of(o));
            }
            let terminated = match mode {
                Mode::Once => false,
                Mode::Count(n) => run_count(nodes, n - 1, rx, filters, &mut results),
                Mode::Many => run_many(nodes, rx, filters, &mut results),
            };
            (terminated, results)
        },
    }
}

/// What applying a template to the stream gives: the template is compiled,
/// and where that fails nothing is taken from the queue.
pub open spec fn spec_apply(
    tag: Seq<u8>,
    mode: Mode,
    y: SyntaxView,
    pending: Seq<Message>,
    fs: Seq<Filter>,
) -> Result<Evaluated, TemplateFault> {
    match spec_compile(tag, y, fs) {
        Ok(nodes) => Ok(spec_evaluate(nodes, mode, pending, fs)),
        Err(e) => Err(e),
    }
}

/// Why a line could not be bound against a template.
#[derive(Debug, PartialEq, Eq)]
pub enum Error {
    /// The template cannot be used.
    Template(TemplateError),
    /// The line does not match the template.
    Miss(MatchError),
}

impl TokenExpr {
    /// Applies the template to the stream of lines in its mode. Gives
    /// whether the end of the stream was met, and the rows. A template
    /// that cannot be used takes nothing from the queue.
    pub fn evaluate(&self, rx: &mut VecDeque<InputToken>, syn: &Syntax, filters: &Registry) -> (r:
        Result<(bool, Vec<Row>), TemplateError>)
        requires
            syn@.wf(),
        ensures
            match r {
                Ok((terminated, rows)) => spec_apply(
                    self.tag@,
                    self.spec_mode(),
                    syn@,
                    messages(old(rx)@),
                    filters@,
                ) == Ok::<Evaluated, TemplateFault>(
                    evaluated(terminated, rows_view(rows@), messages(final(rx)@)),
                ),
                Err(e) => spec_apply(
                    self.tag@,
                    self.spec_mode(),
                    syn@,
                    messages(old(rx)@),
                    filters@,
                ) == Err::<Evaluated, TemplateFault>(e@) && final(rx)@ == old(rx)@,
            },
    {
        match self.compile(syn, filters) {
            Ok(nodes) => Ok(evaluate_nodes(&nodes, self.mode(), rx, filters)),
            Err(e) => Err(e),
        }
    }

    /// Binds the line `text` against the template. The flag `without_block`
    /// is kept for callers that pass it and changes nothing.
    pub fn parse(
        &self,
        rx: &mut VecDeque<InputToken>,
        text: &[u8],
        without_block: bool,
        syn: &Syntax,
        filters: &Registry,
    ) -> (r: Result<(Vec<u8>, Row), Error>)
        requires
            syn@.wf(),
        ensures
            match spec_compile(self.tag@, syn@, filters@) {
                Ok(nodes) => match r {
                    Ok(bound) => combined(
                        Ok(bound),
                        messages(final(rx)@),
                        match_line(nodes, text@, messages(old(rx)@), filters@),
                    ),
                    Err(Error::Miss(e)) => combined(
                        Err(e),
                        messages(final(rx)@),
                        match_line(nodes, text@, messages(old(rx)@), filters@),
                    ),
                    Err(Error::Template(_)) => false,
                },
                Err(fault) => r matches Err(Error::Template(e)) && e@ == fault && final(rx)@
                    == old(rx)@,
            },
    {
        match self.compile(syn, filters) {
            Ok(nodes) => match TokenExpr::parse_token(rx, text, &nodes, filters) {
                Ok(bound) => Ok(bound),
                Err(e) => Err(Error::Miss(e)),
            },
            Err(e) => Err(Error::Template(e)),
        }
    }
}

} // verus!
