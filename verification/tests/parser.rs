use kaeshi::ast::{Expr, Node, Syntax, Target, WS};
use kaeshi::lexer::{identifier, non_ascii, number, quoted, split_ws_parts, take_content};
use kaeshi::parser::{parse_nodes, parse_template, ParseError};

fn check_ws_split(s: &str, res: &(&str, &str, &str)) {
    let node = split_ws_parts(s.as_bytes());
    match node {
        Node::Lit(lws, s, rws) => {
            assert_eq!(lws, res.0.as_bytes());
            assert_eq!(s, res.1.as_bytes());
            assert_eq!(rws, res.2.as_bytes());
        }
        _ => {
            panic!("fail");
        }
    }
}

fn var(name: &str) -> Expr<'_> {
    Expr::Var(name.as_bytes())
}

fn lit<'a>(l: &'a str, b: &'a str, r: &'a str) -> Node<'a> {
    Node::Lit(l.as_bytes(), b.as_bytes(), r.as_bytes())
}

fn plain(e: Expr<'_>) -> Node<'_> {
    Node::Expr(WS(false, false), e)
}

fn parse(source: &str) -> Result<Vec<Node<'_>>, ParseError> {
    parse_template(source.as_bytes(), &Syntax::default())
}

#[test]
fn test_ws_splitter() {
    check_ws_split("", &("", "", ""));
    check_ws_split("a", &("", "a", ""));
    check_ws_split("\ta", &("\t", "a", ""));
    check_ws_split("b\n", &("", "b", "\n"));
    check_ws_split(" \t\r\n", &(" \t\r\n", "", ""));
}

#[test]
fn ws_split_keeps_spaces_of_a_run_without_newline_in_the_body() {
    check_ws_split("b  ", &("", "b  ", ""));
    check_ws_split("  b \t\n", &("  ", "b", " \t\n"));
    check_ws_split("a b\n", &("", "a b", "\n"));
}

#[test]
fn default_syntax_has_the_usual_delimiters() {
    let s = Syntax::default();
    assert_eq!(s.block_start, b"{%".to_vec());
    assert_eq!(s.block_end, b"%}".to_vec());
    assert_eq!(s.expr_start, b"{{".to_vec());
    assert_eq!(s.expr_end, b"}}".to_vec());
}

#[test]
fn empty_template_has_no_nodes() {
    assert_eq!(parse(""), Ok(vec![]));
}

#[test]
fn literal_runs_end_after_a_newline() {
    assert_eq!(
        parse("a\nb\n"),
        Ok(vec![lit("", "a", "\n"), lit("", "b", "\n")])
    );
}

#[test]
fn literal_run_that_starts_with_a_newline_goes_on() {
    assert_eq!(parse("\nab"), Ok(vec![lit("\n", "ab", "")]));
}

#[test]
fn a_lone_brace_is_literal_text() {
    assert_eq!(parse("a{b"), Ok(vec![lit("", "a{b", "")]));
    assert_eq!(parse("a{"), Ok(vec![lit("", "a{", "")]));
}

#[test]
fn take_content_stops_before_a_tag() {
    let s = Syntax::default();
    let (node, end) = take_content(b"total:{{t}}", 0, &s).unwrap();
    assert_eq!(node, lit("", "total:", ""));
    assert_eq!(end, 6);
    assert_eq!(take_content(b"{{t}}", 0, &s), None);
    assert_eq!(take_content(b"", 0, &s), None);
}

#[test]
fn csv_row_template() {
    assert_eq!(
        parse("{{i}},{{n}}\n"),
        Ok(vec![
            plain(var("i")),
            lit("", ",", ""),
            plain(var("n")),
            lit("\n", "", ""),
        ])
    );
}

#[test]
fn expression_tag_with_marks_and_blanks() {
    assert_eq!(
        parse("{{- a -}}"),
        Ok(vec![Node::Expr(WS(true, true), var("a"))])
    );
    assert_eq!(parse("{{ a }}"), Ok(vec![plain(var("a"))]));
    assert_eq!(parse("{{  a }}"), Err(ParseError { offset: 0 }));
}

#[test]
fn literals_in_expressions() {
    assert_eq!(parse("{{true}}"), Ok(vec![plain(Expr::BoolLit(b"true"))]));
    assert_eq!(parse("{{false}}"), Ok(vec![plain(Expr::BoolLit(b"false"))]));
    assert_eq!(parse("{{42}}"), Ok(vec![plain(Expr::NumLit(b"42"))]));
    assert_eq!(
        parse("{{\"a\\\"b\"}}"),
        Ok(vec![plain(Expr::StrLit(b"a\\\"b"))])
    );
    assert_eq!(parse("{{\"\"}}"), Ok(vec![plain(Expr::StrLit(b""))]));
    assert_eq!(parse("{{'x'}}"), Ok(vec![plain(Expr::CharLit(b"x"))]));
}

#[test]
fn filters_wrap_what_stands_before_them() {
    assert_eq!(
        parse("{{t|trim}}"),
        Ok(vec![plain(Expr::Filter(b"trim", vec![var("t")]))])
    );
    assert_eq!(
        parse("{{t|f(1, x)|g}}"),
        Ok(vec![plain(Expr::Filter(
            b"g",
            vec![Expr::Filter(
                b"f",
                vec![var("t"), Expr::NumLit(b"1"), var("x")]
            )]
        ))])
    );
}

#[test]
fn unary_and_binary_operators() {
    assert_eq!(
        parse("{{!a}}"),
        Ok(vec![plain(Expr::Unary(b"!", Box::new(var("a"))))])
    );
    assert_eq!(
        parse("{{a + b * c}}"),
        Ok(vec![plain(Expr::BinOp(
            b"+",
            Box::new(var("a")),
            Box::new(Expr::BinOp(b"*", Box::new(var("b")), Box::new(var("c"))))
        ))])
    );
    assert_eq!(
        parse("{{a * b + c}}"),
        Ok(vec![plain(Expr::BinOp(
            b"+",
            Box::new(Expr::BinOp(b"*", Box::new(var("a")), Box::new(var("b")))),
            Box::new(var("c"))
        ))])
    );
}

#[test]
fn tighter_operators_bind_first() {
    assert_eq!(
        parse("{{a == 1 || b >= 2}}"),
        Ok(vec![plain(Expr::BinOp(
            b"||",
            Box::new(Expr::BinOp(
                b"==",
                Box::new(var("a")),
                Box::new(Expr::NumLit(b"1"))
            )),
            Box::new(Expr::BinOp(
                b">=",
                Box::new(var("b")),
                Box::new(Expr::NumLit(b"2"))
            ))
        ))])
    );
    assert_eq!(
        parse("{{a + b == c && d}}"),
        Ok(vec![plain(Expr::BinOp(
            b"&&",
            Box::new(Expr::BinOp(
                b"==",
                Box::new(Expr::BinOp(b"+", Box::new(var("a")), Box::new(var("b")))),
                Box::new(var("c"))
            )),
            Box::new(var("d"))
        ))])
    );
    assert_eq!(
        parse("{{a << b & c ^ d | e}}"),
        Ok(vec![plain(Expr::BinOp(
            b"|",
            Box::new(Expr::BinOp(
                b"^",
                Box::new(Expr::BinOp(
                    b"&",
                    Box::new(Expr::BinOp(b"<<", Box::new(var("a")), Box::new(var("b")))),
                    Box::new(var("c"))
                )),
                Box::new(var("d"))
            )),
            Box::new(var("e"))
        ))])
    );
}

#[test]
fn operators_of_one_level_nest_to_the_right() {
    assert_eq!(
        parse("{{a - b - c}}"),
        Ok(vec![plain(Expr::BinOp(
            b"-",
            Box::new(var("a")),
            Box::new(Expr::BinOp(b"-", Box::new(var("b")), Box::new(var("c"))))
        ))])
    );
    assert_eq!(
        parse("{{a / b * c}}"),
        Ok(vec![plain(Expr::BinOp(
            b"/",
            Box::new(var("a")),
            Box::new(Expr::BinOp(b"*", Box::new(var("b")), Box::new(var("c"))))
        ))])
    );
}

#[test]
fn an_operator_without_right_side_is_left_alone() {
    assert_eq!(parse("{{a +}}"), Err(ParseError { offset: 0 }));
    assert_eq!(
        parse("{{a -}}"),
        Ok(vec![Node::Expr(WS(false, true), var("a"))])
    );
}

#[test]
fn conditional_with_else_branches() {
    let nodes = parse("{% if a == 1 %}x{% else if a == 2 %}y{% else %}z{% endif %}").unwrap();
    assert_eq!(
        nodes,
        vec![Node::Cond(
            vec![
                (
                    WS(false, false),
                    Some(Expr::BinOp(
                        b"==",
                        Box::new(var("a")),
                        Box::new(Expr::NumLit(b"1"))
                    )),
                    vec![lit("", "x", "")]
                ),
                (
                    WS(false, false),
                    Some(Expr::BinOp(
                        b"==",
                        Box::new(var("a")),
                        Box::new(Expr::NumLit(b"2"))
                    )),
                    vec![lit("", "y", "")]
                ),
                (WS(false, false), None, vec![lit("", "z", "")]),
            ],
            WS(false, false)
        )]
    );
}

#[test]
fn loop_with_name_and_with_tuple() {
    assert_eq!(
        parse("{% for x in xs %}{{x}}{% endfor %}"),
        Ok(vec![Node::Loop(
            WS(false, false),
            Target::Name(b"x"),
            var("xs"),
            vec![plain(var("x"))],
            WS(false, false)
        )])
    );
    assert_eq!(
        parse("{%- for (a, b,) in xs -%}{%- endfor -%}"),
        Ok(vec![Node::Loop(
            WS(true, true),
            Target::Tuple(vec![&b"a"[..], &b"b"[..]]),
            var("xs"),
            vec![],
            WS(true, true)
        )])
    );
}

#[test]
fn unclosed_tag_is_an_error_at_its_place() {
    assert_eq!(parse("total: {{t"), Err(ParseError { offset: 7 }));
    assert_eq!(parse("{{"), Err(ParseError { offset: 0 }));
    assert_eq!(parse("a\n{% if x %}b"), Err(ParseError { offset: 2 }));
}

#[test]
fn missing_word_is_an_error() {
    assert_eq!(parse("{% for x xs %}{% endfor %}"), Err(ParseError { offset: 0 }));
    assert_eq!(parse("{% if a %}b{% endfor %}"), Err(ParseError { offset: 0 }));
}

#[test]
fn name_that_does_not_read_as_one_is_an_error() {
    assert_eq!(parse("{{ | }}"), Err(ParseError { offset: 0 }));
    assert_eq!(parse("x{% for 1 in a %}{% endfor %}"), Err(ParseError { offset: 1 }));
}

#[test]
fn parse_nodes_stops_where_no_node_stands() {
    let s = Syntax::default();
    let (nodes, end) = parse_nodes(b"a{% endif %}", 0, &s);
    assert_eq!(nodes, vec![lit("", "a", "")]);
    assert_eq!(end, 1);
}

#[test]
fn identifiers_take_the_longest_run() {
    assert_eq!(identifier(b"abc", 0), Some(3));
    assert_eq!(identifier(b"a_1 b", 0), Some(3));
    assert_eq!(identifier(b"_x", 0), Some(2));
    assert_eq!(identifier(b"1a", 0), None);
    assert_eq!(identifier(b"", 0), None);
    assert_eq!(identifier("é=".as_bytes(), 0), Some(2));
}

#[test]
fn non_ascii_bytes() {
    assert!(!non_ascii(0x7f));
    assert!(non_ascii(0x80));
    assert!(non_ascii(0xfd));
    assert!(!non_ascii(0xfe));
}

#[test]
fn numbers_and_quoted_literals() {
    assert_eq!(number(b"123x", 0), Some(3));
    assert_eq!(number(b"x", 0), None);
    assert_eq!(quoted(b"\"ab\"c", 0, b'"'), Some(3));
    assert_eq!(quoted(b"\"a\\\"b\"", 0, b'"'), Some(5));
    assert_eq!(quoted(b"\"ab", 0, b'"'), None);
    assert_eq!(quoted(b"\"ab\\", 0, b'"'), None);
}

#[test]
fn custom_delimiters() {
    let s = Syntax {
        block_start: b"<%".to_vec(),
        block_end: b"%>".to_vec(),
        expr_start: b"<<".to_vec(),
        expr_end: b">>".to_vec(),
    };
    assert_eq!(
        parse_template(b"a<<b>>", &s),
        Ok(vec![lit("", "a", ""), plain(var("b"))])
    );
}

#[test]
fn syntax_with_short_delimiters_is_not_well_formed() {
    assert!(Syntax::default().well_formed());
    let s = Syntax {
        block_start: b"%".to_vec(),
        block_end: b"%".to_vec(),
        expr_start: b"{{".to_vec(),
        expr_end: b"}}".to_vec(),
    };
    assert!(!s.well_formed());
}

#[test]
fn nodes_can_be_copied() {
    let nodes =
        parse("a{{x|f(1)}}{% if a == 1 %}b{% else %}c{% endif %}{% for (p, q) in r %}d{% endfor %}")
            .unwrap();
    assert_eq!(nodes.len(), 4);
    let copied: Vec<Node<'_>> = nodes.iter().map(|n| n.clone()).collect();
    assert_eq!(copied, nodes);
    let range = Expr::Range(b"..", Some(Box::new(Expr::NumLit(b"1"))), None);
    assert_eq!(range.clone(), range);
    assert_eq!(Target::Name(b"x").clone(), Target::Name(b"x"));
}
