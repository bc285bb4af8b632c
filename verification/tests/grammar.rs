//! The parser against the same grammar written with nom's combinators, on
//! every text over a small alphabet up to a given length.

use kaeshi::ast::{Expr, Node, Syntax, Target, WS};
use kaeshi::expr::expr_any;
use kaeshi::lexer::{identifier, take_content};
use kaeshi::parser::parse_nodes;
use nom::branch::alt;
use nom::bytes::complete::{escaped, is_not, tag};
use nom::character::complete::{anychar, char, digit1};
use nom::combinator::{complete, opt};
use nom::error::ErrorKind;
use nom::multi::{many0, separated_list};
use nom::sequence::{delimited, pair, tuple};
use nom::IResult;

type Parsed<'a, T> = IResult<&'a [u8], T>;

fn miss<'a, T>(i: &'a [u8]) -> Parsed<'a, T> {
    Err(nom::Err::Error((i, ErrorKind::Alt)))
}

fn blank(i: &[u8]) -> &[u8] {
    alt::<_, _, (), _>((tag(b" "), tag(b"\t")))(i)
        .map(|(i, _)| i)
        .unwrap_or(i)
}

fn ws<'a, O>(inner: impl Fn(&'a [u8]) -> Parsed<'a, O>) -> impl Fn(&'a [u8]) -> Parsed<'a, O> {
    move |i: &'a [u8]| {
        let i = blank(i);
        let (i, res) = inner(i)?;
        Ok((blank(i), res))
    }
}

fn name(i: &[u8]) -> Parsed<'_, &[u8]> {
    match identifier(i, 0) {
        Some(end) => Ok((&i[end..], &i[..end])),
        None => miss(i),
    }
}

fn expr_bool_lit(i: &[u8]) -> Parsed<'_, Expr<'_>> {
    nom::combinator::map(alt((tag("false"), tag("true"))), Expr::BoolLit)(i)
}

fn expr_num_lit(i: &[u8]) -> Parsed<'_, Expr<'_>> {
    nom::combinator::map(digit1, Expr::NumLit)(i)
}

fn expr_str_lit(i: &[u8]) -> Parsed<'_, Expr<'_>> {
    nom::combinator::map(
        delimited(
            char('\"'),
            opt(escaped(is_not("\\\""), '\\', anychar)),
            char('\"'),
        ),
        |s: Option<&[u8]>| Expr::StrLit(s.unwrap_or(b"")),
    )(i)
}

fn expr_char_lit(i: &[u8]) -> Parsed<'_, Expr<'_>> {
    nom::combinator::map(
        delimited(
            char('\''),
            opt(escaped(is_not("\\\'"), '\\', anychar)),
            char('\''),
        ),
        |s: Option<&[u8]>| Expr::CharLit(s.unwrap_or(b"")),
    )(i)
}

fn expr_var(i: &[u8]) -> Parsed<'_, Expr<'_>> {
    nom::combinator::map(name, Expr::Var)(i)
}

fn expr_single(i: &[u8]) -> Parsed<'_, Expr<'_>> {
    alt((
        expr_bool_lit,
        expr_num_lit,
        expr_str_lit,
        expr_char_lit,
        expr_var,
    ))(i)
}

fn arguments(i: &[u8]) -> Parsed<'_, Vec<Expr<'_>>> {
    delimited(tag("("), separated_list(tag(","), ws(any)), tag(")"))(i)
}

fn filter(i: &[u8]) -> Parsed<'_, (&[u8], Option<Vec<Expr<'_>>>)> {
    let (i, (_, fname, args)) = tuple((tag("|"), name, opt(arguments)))(i)?;
    Ok((i, (fname, args)))
}

fn expr_filtered(i: &[u8]) -> Parsed<'_, Expr<'_>> {
    let (i, (obj, filters)) = tuple((expr_single, many0(filter)))(i)?;
    let mut res = obj;
    for (fname, args) in filters {
        let mut args = args.unwrap_or_default();
        args.insert(0, res);
        res = Expr::Filter(fname, args);
    }
    Ok((i, res))
}

fn expr_unary(i: &[u8]) -> Parsed<'_, Expr<'_>> {
    let (i, (op, expr)) = tuple((opt(alt((tag("!"), tag("-")))), expr_filtered))(i)?;
    Ok((
        i,
        match op {
            Some(op) => Expr::Unary(op, Box::new(expr)),
            None => expr,
        },
    ))
}

fn operators(level: usize) -> &'static [&'static str] {
    match level {
        0 => &["||"],
        1 => &["&&"],
        2 => &["==", "!=", ">=", ">", "<=", "<"],
        3 => &["|"],
        4 => &["^"],
        5 => &["&"],
        6 => &[">>", "<<"],
        7 => &["+", "-"],
        _ => &["*", "/", "%"],
    }
}

fn operator<'a>(level: usize) -> impl Fn(&'a [u8]) -> Parsed<'a, &'a [u8]> {
    move |i: &'a [u8]| {
        for op in operators(level) {
            let found: Parsed<'a, &'a [u8]> = tag(*op)(i);
            if found.is_ok() {
                return found;
            }
        }
        miss(i)
    }
}

fn layer(level: usize, i: &[u8]) -> Parsed<'_, Expr<'_>> {
    if level == 9 {
        return expr_unary(i);
    }
    let (i, (left, op_and_right)) = tuple((
        |i| layer(level + 1, i),
        opt(pair(ws(operator(level)), |i| layer(level, i))),
    ))(i)?;
    Ok((
        i,
        match op_and_right {
            Some((op, right)) => Expr::BinOp(op, Box::new(left), Box::new(right)),
            None => left,
        },
    ))
}

fn any(i: &[u8]) -> Parsed<'_, Expr<'_>> {
    layer(0, i)
}

fn target_single(i: &[u8]) -> Parsed<'_, Target<'_>> {
    nom::combinator::map(name, Target::Name)(i)
}

fn target_tuple(i: &[u8]) -> Parsed<'_, Target<'_>> {
    let parts = separated_list(tag(","), ws(name));
    let trailing = opt(ws(tag(",")));
    let full = delimited(tag("("), tuple((parts, trailing)), tag(")"));
    let (i, (elems, _)) = full(i)?;
    Ok((i, Target::Tuple(elems)))
}

fn content<'a>(i: &'a [u8], s: &'a Syntax) -> Parsed<'a, Node<'a>> {
    match take_content(i, 0, s) {
        Some((node, end)) => Ok((&i[end..], node)),
        None => miss(i),
    }
}

fn expr_node<'a>(i: &'a [u8], s: &'a Syntax) -> Parsed<'a, Node<'a>> {
    let p = tuple((
        tag(s.expr_start.as_slice()),
        opt(tag("-")),
        ws(any),
        opt(tag("-")),
        tag(s.expr_end.as_slice()),
    ));
    let (i, (_, pws, expr, nws, _)) = p(i)?;
    Ok((i, Node::Expr(WS(pws.is_some(), nws.is_some()), expr)))
}

fn cond_if(i: &[u8]) -> Parsed<'_, Expr<'_>> {
    let (i, (_, cond)) = tuple((ws(tag("if")), ws(any)))(i)?;
    Ok((i, cond))
}

type Branch<'a> = (WS, Option<Expr<'a>>, Vec<Node<'a>>);

fn cond_block<'a>(i: &'a [u8], s: &'a Syntax) -> Parsed<'a, Branch<'a>> {
    let p = tuple((
        tag(s.block_start.as_slice()),
        opt(tag("-")),
        ws(tag("else")),
        opt(cond_if),
        opt(tag("-")),
        tag(s.block_end.as_slice()),
        |i| template(i, s),
    ));
    let (i, (_, pws, _, cond, nws, _, block)) = p(i)?;
    Ok((i, (WS(pws.is_some(), nws.is_some()), cond, block)))
}

fn block_if<'a>(i: &'a [u8], s: &'a Syntax) -> Parsed<'a, Node<'a>> {
    let p = tuple((
        opt(tag("-")),
        cond_if,
        opt(tag("-")),
        tag(s.block_end.as_slice()),
        |i| template(i, s),
        many0(|i| cond_block(i, s)),
        tag(s.block_start.as_slice()),
        opt(tag("-")),
        ws(tag("endif")),
        opt(tag("-")),
    ));
    let (i, (pws1, cond, nws1, _, block, elifs, _, pws2, _, nws2)) = p(i)?;
    let mut res = Vec::new();
    res.push((WS(pws1.is_some(), nws1.is_some()), Some(cond), block));
    res.extend(elifs);
    Ok((i, Node::Cond(res, WS(pws2.is_some(), nws2.is_some()))))
}

fn block_for<'a>(i: &'a [u8], s: &'a Syntax) -> Parsed<'a, Node<'a>> {
    let p = tuple((
        opt(tag("-")),
        ws(tag("for")),
        ws(alt((target_single, target_tuple))),
        ws(tag("in")),
        ws(any),
        opt(tag("-")),
        tag(s.block_end.as_slice()),
        |i| template(i, s),
        tag(s.block_start.as_slice()),
        opt(tag("-")),
        ws(tag("endfor")),
        opt(tag("-")),
    ));
    let (i, (pws1, _, var, _, iter, nws1, _, block, _, pws2, _, nws2)) = p(i)?;
    Ok((
        i,
        Node::Loop(
            WS(pws1.is_some(), nws1.is_some()),
            var,
            iter,
            block,
            WS(pws2.is_some(), nws2.is_some()),
        ),
    ))
}

fn block_node<'a>(i: &'a [u8], s: &'a Syntax) -> Parsed<'a, Node<'a>> {
    let p = tuple((
        tag(s.block_start.as_slice()),
        alt((|i| block_if(i, s), |i| block_for(i, s))),
        tag(s.block_end.as_slice()),
    ));
    let (i, (_, contents, _)) = p(i)?;
    Ok((i, contents))
}

fn template<'a>(i: &'a [u8], s: &'a Syntax) -> Parsed<'a, Vec<Node<'a>>> {
    many0(alt((
        complete(|i| content(i, s)),
        complete(|i| expr_node(i, s)),
        complete(|i| block_node(i, s)),
    )))(i)
}

fn texts(pieces: &[&[u8]], depth: usize, each: &mut dyn FnMut(&[u8])) {
    let mut counters = vec![0usize; depth];
    for len in 0..=depth {
        for c in counters.iter_mut() {
            *c = 0;
        }
        loop {
            let mut text: Vec<u8> = Vec::new();
            for k in 0..len {
                text.extend_from_slice(pieces[counters[k]]);
            }
            each(&text);
            let mut k = 0;
            while k < len {
                counters[k] += 1;
                if counters[k] < pieces.len() {
                    break;
                }
                counters[k] = 0;
                k += 1;
            }
            if k == len {
                break;
            }
        }
    }
}

fn same_expression(text: &[u8]) {
    let ours = expr_any(text, 0);
    let theirs = any(text);
    match (ours, theirs) {
        (Some((e, end)), Ok((rest, want))) => {
            assert_eq!(e, want, "on {:?}", String::from_utf8_lossy(text));
            assert_eq!(&text[end..], rest, "on {:?}", String::from_utf8_lossy(text));
        }
        (None, Err(_)) => {}
        (ours, theirs) => panic!(
            "on {:?}: {:?} against {:?}",
            String::from_utf8_lossy(text),
            ours,
            theirs
        ),
    }
}

fn same_template(text: &[u8], s: &Syntax) {
    let (nodes, end) = parse_nodes(text, 0, s);
    let (rest, want) = template(text, s).unwrap();
    assert_eq!(nodes, want, "on {:?}", String::from_utf8_lossy(text));
    assert_eq!(&text[end..], rest, "on {:?}", String::from_utf8_lossy(text));
}

#[test]
fn expressions_with_operators_agree() {
    let pieces: [&[u8]; 12] = [
        b"a", b"1", b" ", b"|", b"&", b"=", b"!", b"<", b">", b"+", b"-", b"*",
    ];
    texts(&pieces, 5, &mut |t| same_expression(t));
}

#[test]
fn expressions_with_filters_agree() {
    let pieces: [&[u8]; 9] = [b"a", b"|", b"f", b"(", b")", b",", b" ", b"\t", b"1"];
    texts(&pieces, 6, &mut |t| same_expression(t));
}

#[test]
fn expressions_with_literals_agree() {
    let pieces: [&[u8]; 8] = [b"\"", b"'", b"\\", b"x", b"true", b"false", b"0", b"_"];
    texts(&pieces, 6, &mut |t| same_expression(t));
}

#[test]
fn expressions_with_more_operators_agree() {
    let pieces: [&[u8]; 10] = [b"a", b"/", b"%", b"^", b"<<", b">>", b"==", b"!=", b" ", b"-"];
    texts(&pieces, 5, &mut |t| same_expression(t));
}

#[test]
fn templates_with_expression_tags_agree() {
    let s = Syntax::default();
    let pieces: [&[u8]; 9] = [b"{{", b"}}", b"a", b"-", b" ", b"{", b"}", b"\n", b"|f"];
    texts(&pieces, 6, &mut |t| same_template(t, &s));
}

#[test]
fn templates_with_conditionals_agree() {
    let s = Syntax::default();
    let pieces: [&[u8]; 9] = [
        b"{%", b"%}", b"if a", b"else", b"endif", b" ", b"-", b"x", b"if",
    ];
    texts(&pieces, 7, &mut |t| same_template(t, &s));
}

#[test]
fn templates_with_loops_agree() {
    let s = Syntax::default();
    let pieces: [&[u8]; 10] = [
        b"{%", b"%}", b"for", b" ", b"x", b"in", b"endfor", b"(x,x)", b"-", b"(x ,)",
    ];
    texts(&pieces, 7, &mut |t| same_template(t, &s));
}

#[test]
fn nested_blocks_agree() {
    let s = Syntax::default();
    let pieces: [&[u8]; 8] = [
        b"{%if a%}",
        b"{%else%}",
        b"{% else if b %}",
        b"{%endif%}",
        b"{%for x in y%}",
        b"{%endfor%}",
        b"{{c}}",
        b"t\n",
    ];
    texts(&pieces, 6, &mut |t| same_template(t, &s));
}

#[test]
fn templates_with_other_delimiters_agree() {
    let s = Syntax {
        block_start: b"<%".to_vec(),
        block_end: b"%>".to_vec(),
        expr_start: b"<<".to_vec(),
        expr_end: b">>".to_vec(),
    };
    let pieces: [&[u8]; 9] = [b"<", b"%", b">", b"a", b"if a", b"endif", b" ", b"\n", b"<<a>>"];
    texts(&pieces, 6, &mut |t| same_template(t, &s));
}
