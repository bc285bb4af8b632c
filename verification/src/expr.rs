//! The expressions of the template language: literals, variables, filters,
//! unary operators, and binary operators in nine levels of precedence.
//!
//! The grammar is stated as spec functions from a text and a position to the
//! expression that stands there and the position after it. The executable
//! parsers are proved to compute exactly that.

use vstd::prelude::*;
use vstd::string::StringSliceAdditionalSpecFns;
use crate::ast::{exprs_view, Expr, ExprView};
use crate::lexer::{
    blank, byte_at, has_byte, identifier, number, quoted, skip_blank, spec_identifier,
    spec_number, spec_quoted, DOUBLE_QUOTE, MINUS, SINGLE_QUOTE,
};
use crate::text::{has_tag, tag_at};

verus! {

/// The byte of an exclamation mark.
pub const BANG: u8 = 33;

/// The byte of a percent sign.
pub const PERCENT: u8 = 37;

/// The byte of an ampersand.
pub const AMPERSAND: u8 = 38;

/// The byte of an opening parenthesis.
pub const PAREN_OPEN: u8 = 40;

/// The byte of a closing parenthesis.
pub const PAREN_CLOSE: u8 = 41;

/// The byte of an asterisk.
pub const STAR: u8 = 42;

/// The byte of a plus sign.
pub const PLUS: u8 = 43;

/// The byte of a comma.
pub const COMMA: u8 = 44;

/// The byte of a slash.
pub const SLASH: u8 = 47;

/// The byte of a less-than sign.
pub const LESS: u8 = 60;

/// The byte of an equals sign.
pub const EQUALS: u8 = 61;

/// The byte of a greater-than sign.
pub const GREATER: u8 = 62;

/// The byte of a caret.
pub const CARET: u8 = 94;

/// The byte of a vertical bar.
pub const PIPE: u8 = 124;

/// The number of levels of binary operators. Level 0 binds loosest.
pub const LEVELS: u8 = 9;

/// The word `false`.
pub open spec fn word_false() -> Seq<u8> {
    "false".spec_bytes()
}

/// The word `true`.
pub open spec fn word_true() -> Seq<u8> {
    "true".spec_bytes()
}

/// The words `false` and `true` have five and four bytes.
pub proof fn lemma_word_lengths()
    ensures
        word_false().len() == 5,
        word_true().len() == 4,
{
    reveal_strlit("false");
    reveal_strlit("true");
    vstd::utf8::is_ascii_chars_encode_utf8("false"@);
    vstd::utf8::is_ascii_chars_encode_utf8("true"@);
}

/// The bytes `a` and `b` stand at `pos` and after it.
pub open spec fn pair_at(s: Seq<u8>, pos: int, a: u8, b: u8) -> bool {
    byte_at(s, pos, a) && byte_at(s, pos + 1, b)
}

/// The length of the binary operator of the given level that stands at
/// `pos`, or 0 where none does. From the loosest level to the tightest the
/// operators are: `||`; `&&`; `==`, `!=`, `>=`, `>`, `<=`, `<`; `|`; `^`;
/// `&`; `>>`, `<<`; `+`, `-`; `*`, `/`, `%`.
pub open spec fn operator_len(s: Seq<u8>, pos: int, level: int) -> int {
    if level == 0 {
        if pair_at(s, pos, PIPE, PIPE) { 2 } else { 0 }
    } else if level == 1 {
        if pair_at(s, pos, AMPERSAND, AMPERSAND) { 2 } else { 0 }
    } else if level == 2 {
        if pair_at(s, pos, EQUALS, EQUALS) || pair_at(s, pos, BANG, EQUALS) || pair_at(
            s,
            pos,
            GREATER,
            EQUALS,
        ) || pair_at(s, pos, LESS, EQUALS) {
            2
        } else if byte_at(s, pos, GREATER) || byte_at(s, pos, LESS) {
            1
        } else {
            0
        }
    } else if level == 3 {
        if byte_at(s, pos, PIPE) { 1 } else { 0 }
    } else if level == 4 {
        if byte_at(s, pos, CARET) { 1 } else { 0 }
    } else if level == 5 {
        if byte_at(s, pos, AMPERSAND) { 1 } else { 0 }
    } else if level == 6 {
        if pair_at(s, pos, GREATER, GREATER) || pair_at(s, pos, LESS, LESS) { 2 } else { 0 }
    } else if level == 7 {
        if byte_at(s, pos, PLUS) || byte_at(s, pos, MINUS) { 1 } else { 0 }
    } else if level == 8 {
        if byte_at(s, pos, STAR) || byte_at(s, pos, SLASH) || byte_at(s, pos, PERCENT) {
            1
        } else {
            0
        }
    } else {
        0
    }
}

/// Tells whether the bytes `a` and `b` stand at `pos` and after it.
fn has_pair(input: &[u8], pos: usize, a: u8, b: u8) -> (r: bool)
    ensures
        r == pair_at(input@, pos as int, a, b),
{
    pos < input.len() && input[pos] == a && input.len() - pos >= 2 && input[pos + 1] == b
}

/// Measures the binary operator of the given level at `pos`.
pub fn operator(input: &[u8], pos: usize, level: u8) -> (r: usize)
    requires
        pos <= input.len(),
    ensures
        r == operator_len(input@, pos as int, level as int),
        pos + r <= input.len(),
        r <= 2,
{
    if level == 0 {
        if has_pair(input, pos, PIPE, PIPE) { 2 } else { 0 }
    } else if level == 1 {
        if has_pair(input, pos, AMPERSAND, AMPERSAND) { 2 } else { 0 }
    } else if level == 2 {
        if has_pair(input, pos, EQUALS, EQUALS) || has_pair(input, pos, BANG, EQUALS) || has_pair(
            input,
            pos,
            GREATER,
            EQUALS,
        ) || has_pair(input, pos, LESS, EQUALS) {
            2
        } else if has_byte(input, pos, GREATER) || has_byte(input, pos, LESS) {
            1
        } else {
            0
        }
    } else if level == 3 {
        if has_byte(input, pos, PIPE) { 1 } else { 0 }
    } else if level == 4 {
        if has_byte(input, pos, CARET) { 1 } else { 0 }
    } else if level == 5 {
        if has_byte(input, pos, AMPERSAND) { 1 } else { 0 }
    } else if level == 6 {
        if has_pair(input, pos, GREATER, GREATER) || has_pair(input, pos, LESS, LESS) {
            2
        } else {
            0
        }
    } else if level == 7 {
        if has_byte(input, pos, PLUS) || has_byte(input, pos, MINUS) { 1 } else { 0 }
    } else if level == 8 {
        if has_byte(input, pos, STAR) || has_byte(input, pos, SLASH) || has_byte(
            input,
            pos,
            PERCENT,
        ) {
            1
        } else {
            0
        }
    } else {
        0
    }
}

/// `end` lies after `pos` and inside the text.
pub open spec fn ahead(s: Seq<u8>, pos: int, end: int) -> bool {
    0 <= pos < end <= s.len()
}

/// The expression without operators or filters at `pos`: `false` or `true`,
/// a number, a literal in double or single quotes, or a variable, tried in
/// this order.
pub open spec fn spec_expr_single(s: Seq<u8>, pos: int) -> Option<(ExprView, int)> {
    if tag_at(s, pos, word_false()) {
        Some((ExprView::BoolLit(word_false()), pos + word_false().len()))
    } else if tag_at(s, pos, word_true()) {
        Some((ExprView::BoolLit(word_true()), pos + word_true().len()))
    } else if let Some(end) = spec_number(s, pos) {
        Some((ExprView::NumLit(s.subrange(pos, end)), end))
    } else if let Some((from, to, end)) = spec_quoted(s, pos, DOUBLE_QUOTE) {
        Some((ExprView::StrLit(s.subrange(from, to)), end))
    } else if let Some((from, to, end)) = spec_quoted(s, pos, SINGLE_QUOTE) {
        Some((ExprView::CharLit(s.subrange(from, to)), end))
    } else if let Some(end) = spec_identifier(s, pos) {
        Some((ExprView::Var(s.subrange(pos, end)), end))
    } else {
        None
    }
}

/// Any expression at `pos`.
#[verifier::opaque]
pub open spec fn spec_expr_any(s: Seq<u8>, pos: int) -> Option<(ExprView, int)>
    decreases s.len() - pos, 13int,
{
    spec_expr_level(s, pos, 0)
}

/// The expression at `pos` that uses binary operators of the given level
/// and tighter ones only: what stands on the two sides of an operator of
/// this level are expressions of tighter levels, so that `a * b + c` is the
/// sum of `a * b` and `c`. Operators of one level nest to the right:
/// `a - b - c` is `a - (b - c)`. An operator may have one space or tab on
/// each side. Where no expression follows it, the operator is not part of
/// the expression.
#[verifier::opaque]
pub open spec fn spec_expr_level(s: Seq<u8>, pos: int, level: int) -> Option<(ExprView, int)>
    decreases s.len() - pos, (if 0 <= level < LEVELS { 12 - level } else { 3 }),
{
    if !(0 <= level < LEVELS) {
        spec_expr_unary(s, pos)
    } else {
        match spec_expr_level(s, pos, level + 1) {
            None => None,
            Some((left, after_left)) => {
                let op = blank(s, after_left);
                let len = operator_len(s, op, level);
                let right_at = blank(s, op + len);
                if len > 0 && ahead(s, pos, right_at) {
                    match spec_expr_level(s, right_at, level) {
                        Some((right, end)) => Some(
                            (
                                ExprView::BinOp(
                                    s.subrange(op, op + len),
                                    Box::new(left),
                                    Box::new(right),
                                ),
                                end,
                            ),
                        ),
                        None => Some((left, after_left)),
                    }
                } else {
                    Some((left, after_left))
                }
            },
        }
    }
}

/// The expression at `pos` with at most one unary operator, `!` or `-`,
/// before it.
#[verifier::opaque]
pub open spec fn spec_expr_unary(s: Seq<u8>, pos: int) -> Option<(ExprView, int)>
    decreases s.len() - pos, 2int,
{
    if byte_at(s, pos, BANG) || byte_at(s, pos, MINUS) {
        match spec_expr_filtered(s, pos + 1) {
            Some((inner, end)) => Some(
                (ExprView::Unary(s.subrange(pos, pos + 1), Box::new(inner)), end),
            ),
            None => None,
        }
    } else {
        spec_expr_filtered(s, pos)
    }
}

/// The expression at `pos` with the filters applied to it.
#[verifier::opaque]
pub open spec fn spec_expr_filtered(s: Seq<u8>, pos: int) -> Option<(ExprView, int)>
    decreases s.len() - pos, 1int,
{
    match spec_expr_single(s, pos) {
        Some((first, end)) => if ahead(s, pos, end) {
            Some(spec_filters(s, end, first))
        } else {
            None
        },
        None => None,
    }
}

/// The filters at `pos`, applied in order to the expression `acc`: each
/// filter takes what stands before it as its first argument.
#[verifier::opaque]
pub open spec fn spec_filters(s: Seq<u8>, pos: int, acc: ExprView) -> (ExprView, int)
    decreases s.len() - pos, 18int,
{
    match spec_filter(s, pos) {
        Some((name, args, end)) => if ahead(s, pos, end) {
            spec_filters(s, end, ExprView::Filter(name, seq![acc] + args))
        } else {
            (acc, pos)
        },
        None => (acc, pos),
    }
}

/// The filter at `pos`: a vertical bar, a name, and arguments in
/// parentheses where there are any.
#[verifier::opaque]
pub open spec fn spec_filter(s: Seq<u8>, pos: int) -> Option<(Seq<u8>, Seq<ExprView>, int)>
    decreases s.len() - pos, 17int,
{
    if byte_at(s, pos, PIPE) {
        match spec_identifier(s, pos + 1) {
            Some(name_end) => if ahead(s, pos, name_end) {
                match spec_arguments(s, name_end) {
                    Some((args, end)) => Some((s.subrange(pos + 1, name_end), args, end)),
                    None => Some((s.subrange(pos + 1, name_end), Seq::empty(), name_end)),
                }
            } else {
                None
            },
            None => None,
        }
    } else {
        None
    }
}

/// The arguments at `pos`: expressions between parentheses, with commas
/// between them.
#[verifier::opaque]
pub open spec fn spec_arguments(s: Seq<u8>, pos: int) -> Option<(Seq<ExprView>, int)>
    decreases s.len() - pos, 16int,
{
    if byte_at(s, pos, PAREN_OPEN) {
        let (args, end) = spec_expr_list(s, pos + 1);
        if byte_at(s, end, PAREN_CLOSE) {
            Some((args, end + 1))
        } else {
            None
        }
    } else {
        None
    }
}

/// The expressions at `pos`, with commas between them; there may be none.
#[verifier::opaque]
pub open spec fn spec_expr_list(s: Seq<u8>, pos: int) -> (Seq<ExprView>, int)
    decreases s.len() - pos, 15int,
{
    match spec_padded_expr(s, pos) {
        Some((first, end)) => if ahead(s, pos, end) {
            let (rest, last) = spec_expr_list_tail(s, end);
            (seq![first] + rest, last)
        } else {
            (Seq::empty(), pos)
        },
        None => (Seq::empty(), pos),
    }
}

/// What follows an expression in a list: a comma and an expression, as
/// often as both are there.
#[verifier::opaque]
pub open spec fn spec_expr_list_tail(s: Seq<u8>, pos: int) -> (Seq<ExprView>, int)
    decreases s.len() - pos, 15int,
{
    if byte_at(s, pos, COMMA) {
        match spec_padded_expr(s, pos + 1) {
            Some((next, end)) => if ahead(s, pos, end) {
                let (rest, last) = spec_expr_list_tail(s, end);
                (seq![next] + rest, last)
            } else {
                (Seq::empty(), pos)
            },
            None => (Seq::empty(), pos),
        }
    } else {
        (Seq::empty(), pos)
    }
}

/// Any expression at `pos`, with at most one space or tab on each side.
#[verifier::opaque]
pub open spec fn spec_padded_expr(s: Seq<u8>, pos: int) -> Option<(ExprView, int)>
    decreases s.len() - pos, 14int,
{
    match spec_expr_any(s, blank(s, pos)) {
        Some((e, end)) => Some((e, blank(s, end))),
        None => None,
    }
}

/// The parser's answer `r` is the expression and position `m`.
pub open spec fn expr_parsed(r: Option<(Expr, usize)>, m: Option<(ExprView, int)>) -> bool {
    match r {
        Some((e, end)) => m == Some((e@, end as int)),
        None => m is None,
    }
}

/// The parser's answer `r` is the list of expressions and position `m`.
pub open spec fn exprs_parsed(r: (Vec<Expr>, usize), m: (Seq<ExprView>, int)) -> bool {
    m == (exprs_view(r.0@), r.1 as int)
}

/// The value of a filter expression is the filter's name and the values of
/// its arguments.
pub proof fn lemma_filter_view(name: &[u8], args: Vec<Expr>)
    ensures
        Expr::Filter(name, args)@ == ExprView::Filter(name@, exprs_view(args@)),
{
    match Expr::Filter(name, args)@ {
        ExprView::Filter(n, a) => {
            assert(a =~= exprs_view(args@));
        },
        _ => {},
    }
}

/// Reads the expression without operators or filters at `pos`.
pub fn expr_single<'a>(input: &'a [u8], pos: usize) -> (r: Option<(Expr<'a>, usize)>)
    requires
        pos <= input.len(),
    ensures
        expr_parsed(r, spec_expr_single(input@, pos as int)),
        r matches Some((_, end)) ==> pos < end <= input.len(),
{
    proof {
        lemma_word_lengths();
    }
    let w_false = "false".as_bytes();
    let w_true = "true".as_bytes();
    if has_tag(input, pos, w_false) {
        let end = pos + w_false.len();
        return Some((Expr::BoolLit(&input[pos..end]), end));
    }
    if has_tag(input, pos, w_true) {
        let end = pos + w_true.len();
        return Some((Expr::BoolLit(&input[pos..end]), end));
    }
    if let Some(end) = number(input, pos) {
        return Some((Expr::NumLit(&input[pos..end]), end));
    }
    if let Some(close) = quoted(input, pos, DOUBLE_QUOTE) {
        return Some((Expr::StrLit(&input[pos + 1..close]), close + 1));
    }
    if let Some(close) = quoted(input, pos, SINGLE_QUOTE) {
        return Some((Expr::CharLit(&input[pos + 1..close]), close + 1));
    }
    if let Some(end) = identifier(input, pos) {
        return Some((Expr::Var(&input[pos..end]), end));
    }
    None
}

/// Reads any expression at `pos`.
pub fn expr_any<'a>(input: &'a [u8], pos: usize) -> (r: Option<(Expr<'a>, usize)>)
    requires
        pos <= input.len(),
    ensures
        expr_parsed(r, spec_expr_any(input@, pos as int)),
        r matches Some((_, end)) ==> pos < end <= input.len(),
    decreases input.len() - pos, 13int,
{
    proof {
        reveal(spec_expr_any);
        reveal(spec_expr_level);
    }
    expr_level(input, pos, 0)
}

/// Reads the expression at `pos` that uses binary operators of the given
/// level and tighter ones only.
pub fn expr_level<'a>(input: &'a [u8], pos: usize, level: u8) -> (r: Option<(Expr<'a>, usize)>)
    requires
        pos <= input.len(),
    ensures
        expr_parsed(r, spec_expr_level(input@, pos as int, level as int)),
        r matches Some((_, end)) ==> pos < end <= input.len(),
    decreases input.len() - pos, (if level < LEVELS { 12 - level } else { 3 }),
{
    proof {
        reveal(spec_expr_level);
        reveal(spec_expr_unary);
        reveal(spec_expr_any);
    }
    if level >= LEVELS {
        return expr_unary(input, pos);
    }
    match expr_level(input, pos, level + 1) {
        None => None,
        Some((left, after_left)) => {
            let op = skip_blank(input, after_left);
            let len = operator(input, op, level);
            if len == 0 {
                return Some((left, after_left));
            }
            let right_at = skip_blank(input, op + len);
            match expr_level(input, right_at, level) {
                Some((right, end)) => Some(
                    (Expr::BinOp(&input[op..op + len], Box::new(left), Box::new(right)), end),
                ),
                None => Some((left, after_left)),
            }
        },
    }
}

/// Reads the expression at `pos` with at most one unary operator before it.
pub fn expr_unary<'a>(input: &'a [u8], pos: usize) -> (r: Option<(Expr<'a>, usize)>)
    requires
        pos <= input.len(),
    ensures
        expr_parsed(r, spec_expr_unary(input@, pos as int)),
        r matches Some((_, end)) ==> pos < end <= input.len(),
    decreases input.len() - pos, 2int,
{
    proof {
        reveal(spec_expr_unary);
        reveal(spec_expr_filtered);
    }
    if has_byte(input, pos, BANG) || has_byte(input, pos, MINUS) {
        match expr_filtered(input, pos + 1) {
            Some((inner, end)) => Some((Expr::Unary(&input[pos..pos + 1], Box::new(inner)), end)),
            None => None,
        }
    } else {
        expr_filtered(input, pos)
    }
}

/// Reads the expression at `pos` and the filters applied to it.
pub fn expr_filtered<'a>(input: &'a [u8], pos: usize) -> (r: Option<(Expr<'a>, usize)>)
    requires
        pos <= input.len(),
    ensures
        expr_parsed(r, spec_expr_filtered(input@, pos as int)),
        r matches Some((_, end)) ==> pos < end <= input.len(),
    decreases input.len() - pos, 1int,
{
    proof {
        reveal(spec_expr_filtered);
        reveal(spec_filters);
    }
    match expr_single(input, pos) {
        None => None,
        Some((first, first_end)) => {
            let ghost whole = spec_filters(input@, first_end as int, first@);
            let mut acc = first;
            let mut p = first_end;
            loop
                invariant
                    pos < p <= input.len(),
                    whole == spec_filters(input@, p as int, acc@),
                ensures
                    pos < p <= input.len(),
                    whole == (acc@, p as int),
                decreases input.len() - p,
            {
                proof {
                    reveal(spec_filters);
                    reveal(spec_filter);
                }
                match filter(input, p) {
                    None => {
                        break ;
                    },
                    Some((name, mut args, end)) => {
                        let ghost before = exprs_view(args@);
                        args.insert(0, acc);
                        proof {
                            lemma_filter_view(name, args);
                            assert(exprs_view(args@) =~= seq![args@[0]@] + before);
                        }
                        acc = Expr::Filter(name, args);
                        p = end;
                    },
                }
            }
            Some((acc, p))
        },
    }
}

/// Reads the filter at `pos`: its name and its arguments.
pub fn filter<'a>(input: &'a [u8], pos: usize) -> (r: Option<(&'a [u8], Vec<Expr<'a>>, usize)>)
    requires
        pos <= input.len(),
    ensures
        match r {
            Some((name, args, end)) => spec_filter(input@, pos as int) == Some(
                (name@, exprs_view(args@), end as int),
            ),
            None => spec_filter(input@, pos as int) is None,
        },
        r matches Some((_, _, end)) ==> pos < end <= input.len(),
    decreases input.len() - pos, 17int,
{
    proof {
        reveal(spec_filter);
        reveal(spec_arguments);
    }
    if !has_byte(input, pos, PIPE) {
        return None;
    }
    match identifier(input, pos + 1) {
        None => None,
        Some(name_end) => {
            let name = &input[pos + 1..name_end];
            match arguments(input, name_end) {
                Some((args, end)) => Some((name, args, end)),
                None => {
                    let args: Vec<Expr<'a>> = Vec::new();
                    assert(exprs_view(args@) =~= Seq::<ExprView>::empty());
                    Some((name, args, name_end))
                },
            }
        },
    }
}

/// Reads the arguments in parentheses at `pos`.
pub fn arguments<'a>(input: &'a [u8], pos: usize) -> (r: Option<(Vec<Expr<'a>>, usize)>)
    requires
        pos <= input.len(),
    ensures
        match r {
            Some((args, end)) => spec_arguments(input@, pos as int) == Some(
                (exprs_view(args@), end as int),
            ),
            None => spec_arguments(input@, pos as int) is None,
        },
        r matches Some((_, end)) ==> pos < end <= input.len(),
    decreases input.len() - pos, 16int,
{
    proof {
        reveal(spec_arguments);
        reveal(spec_expr_list);
    }
    if !has_byte(input, pos, PAREN_OPEN) {
        return None;
    }
    let (args, end) = expr_list(input, pos + 1);
    if has_byte(input, end, PAREN_CLOSE) {
        Some((args, end + 1))
    } else {
        None
    }
}

/// What follows an expression in a list, one step written out: a comma and
/// an expression, and what follows them.
pub proof fn lemma_expr_list_tail_step(s: Seq<u8>, pos: int)
    ensures
        spec_expr_list_tail(s, pos) == (if byte_at(s, pos, COMMA) {
            match spec_padded_expr(s, pos + 1) {
                Some((next, end)) => if ahead(s, pos, end) {
                    (
                        seq![next] + spec_expr_list_tail(s, end).0,
                        spec_expr_list_tail(s, end).1,
                    )
                } else {
                    (Seq::<ExprView>::empty(), pos)
                },
                None => (Seq::<ExprView>::empty(), pos),
            }
        } else {
            (Seq::<ExprView>::empty(), pos)
        }),
{
    reveal(spec_expr_list_tail);
    reveal(spec_padded_expr);
}

/// Reads the expressions at `pos`, with commas between them.
pub fn expr_list<'a>(input: &'a [u8], pos: usize) -> (r: (Vec<Expr<'a>>, usize))
    requires
        pos <= input.len(),
    ensures
        exprs_parsed(r, spec_expr_list(input@, pos as int)),
        pos <= r.1 <= input.len(),
    decreases input.len() - pos, 15int,
{
    proof {
        reveal(spec_expr_list);
        reveal(spec_expr_list_tail);
        reveal(spec_padded_expr);
    }
    let mut out: Vec<Expr<'a>> = Vec::new();
    let ghost whole = spec_expr_list(input@, pos as int);
    let mut p: usize = pos;
    match padded_expr(input, pos) {
        None => {
            assert(exprs_view(out@) =~= Seq::<ExprView>::empty());
            return (out, pos);
        },
        Some((first, end)) => {
            out.push(first);
            p = end;
            assert(exprs_view(out@) =~= seq![first@]);
        },
    }
    loop
        invariant
            pos < p <= input.len(),
            whole == (
                exprs_view(out@) + spec_expr_list_tail(input@, p as int).0,
                spec_expr_list_tail(input@, p as int).1,
            ),
        ensures
            pos < p <= input.len(),
            whole == (exprs_view(out@), p as int),
        decreases input.len() - p,
    {
        proof {
            lemma_expr_list_tail_step(input@, p as int);
        }
        if !has_byte(input, p, COMMA) {
            assert(exprs_view(out@) + Seq::<ExprView>::empty() =~= exprs_view(out@));
            break ;
        }
        match padded_expr(input, p + 1) {
            None => {
                assert(exprs_view(out@) + Seq::<ExprView>::empty() =~= exprs_view(out@));
                break ;
            },
            Some((next, end)) => {
                let ghost before = exprs_view(out@);
                let ghost rest = spec_expr_list_tail(input@, end as int).0;
                out.push(next);
                proof {
                    assert(exprs_view(out@) =~= before + seq![next@]);
                    assert(before + (seq![next@] + rest) =~= (before + seq![next@]) + rest);
                }
                p = end;
            },
        }
    }
    (out, p)
}

/// Reads any expression at `pos`, with at most one space or tab on each
/// side.
pub fn padded_expr<'a>(input: &'a [u8], pos: usize) -> (r: Option<(Expr<'a>, usize)>)
    requires
        pos <= input.len(),
    ensures
        expr_parsed(r, spec_padded_expr(input@, pos as int)),
        r matches Some((_, end)) ==> pos < end <= input.len(),
    decreases input.len() - pos, 14int,
{
    proof {
        reveal(spec_padded_expr);
        reveal(spec_expr_any);
    }
    match expr_any(input, skip_blank(input, pos)) {
        Some((e, end)) => Some((e, skip_blank(input, end))),
        None => None,
    }
}

} // verus!
