use std::collections::VecDeque;

use kaeshi::ast::{Expr, Node, Syntax, WS};
use kaeshi::combinator::{token_expr, ErrorKind, MatchError};
use kaeshi::filters::{trim, Filter, Registry};
use kaeshi::parser::parse_template;
use kaeshi::row::Row;
use kaeshi::stream::InputToken;
use kaeshi::TokenExpr;

fn bind(template: &str, line: &str) -> Result<(Vec<u8>, Row), MatchError> {
    let nodes = parse_template(template.as_bytes(), &Syntax::default()).unwrap();
    let mut rx = VecDeque::new();
    TokenExpr::parse_token(&mut rx, line.as_bytes(), &nodes, &Registry::standard())
}

fn row_of(pairs: &[(&str, &str)]) -> Row {
    let mut row = Row::new();
    for (k, v) in pairs {
        row.insert(k.as_bytes().to_vec(), v.as_bytes().to_vec());
    }
    row
}

fn line(text: &str) -> InputToken {
    InputToken::Channel(text.as_bytes().to_vec())
}

fn cmp<'a>(op: &'a str, left: Expr<'a>, right: Expr<'a>) -> Expr<'a> {
    Expr::BinOp(op.as_bytes(), Box::new(left), Box::new(right))
}

#[test]
fn filter_trim() {
    let (rest, row) = bind("total:{{t|trim}}", "total: 20\n").unwrap();
    assert_eq!(row, row_of(&[("t", "20")]));
    assert_eq!(rest, b"\n".to_vec());
}

#[test]
fn lookahead_into_literal() {
    let (rest, row) = bind("{{a}}--{{b}}", "hello--world").unwrap();
    assert_eq!(row, row_of(&[("a", "hello"), ("b", "world")]));
    assert_eq!(rest, b"".to_vec());
}

#[test]
fn csv_line_binds_one_name_for_each_variable() {
    let (rest, row) = bind("{{i}},{{n}},{{a}},{{e}}\n", "1,abc,10,a@x\n").unwrap();
    assert_eq!(
        row,
        row_of(&[("i", "1"), ("n", "abc"), ("a", "10"), ("e", "a@x")])
    );
    assert_eq!(row.len(), 4);
    assert_eq!(rest, b"".to_vec());
}

#[test]
fn literal_only_template_gives_an_empty_row_or_a_miss() {
    let (rest, row) = bind("id,name\n", "id,name\n").unwrap();
    assert!(row.is_empty());
    assert_eq!(rest, b"".to_vec());
    assert_eq!(
        bind("id,name\n", "1,abc\n"),
        Err(MatchError { input: b"1,abc\n".to_vec(), kind: ErrorKind::Eof })
    );
}

#[test]
fn template_without_variables_matches_where_its_literals_stand() {
    let template = "ab{% if a == b %}x{% else %}y{% endif %}{{ 1 }}cd{% for i in r %}z{% endfor %}e";
    let (rest, row) = bind(template, "abcderest\n").unwrap();
    assert!(row.is_empty());
    assert_eq!(rest, b"rest\n".to_vec());
    assert_eq!(
        bind(template, "abxcde"),
        Err(MatchError { input: b"xcde".to_vec(), kind: ErrorKind::Eof })
    );
    assert_eq!(
        bind(template, "abcd"),
        Err(MatchError { input: b"".to_vec(), kind: ErrorKind::Eof })
    );
    assert_eq!(bind(template, "abcde"), bind(template, "abcde"));
    assert_eq!(bind(template, "abcdz"), bind(template, "abcdz"));
}

#[test]
fn miss_tells_what_was_left_of_the_line() {
    assert_eq!(
        bind("a\nb", "a\nc"),
        Err(MatchError { input: b"c".to_vec(), kind: ErrorKind::Eof })
    );
    let (rest, row) = bind("a={{a}};b", "a=1;b2").unwrap();
    assert_eq!(row, row_of(&[("a", "1")]));
    assert_eq!(rest, b"2".to_vec());
}

#[test]
fn variable_before_a_literal_stops_at_a_newline_too() {
    assert_eq!(
        bind("{{a}};", "x\ny;"),
        Err(MatchError { input: b"\ny;".to_vec(), kind: ErrorKind::Eof })
    );
}

#[test]
fn variable_may_take_nothing() {
    let (rest, row) = bind("{{a}}--{{b}}", "--x").unwrap();
    assert_eq!(row, row_of(&[("a", ""), ("b", "x")]));
    assert_eq!(rest, b"".to_vec());
}

#[test]
fn variable_that_finds_no_stop_binds_nothing_and_empties_the_line() {
    assert_eq!(
        bind("{{a}};", "abc"),
        Err(MatchError { input: b"".to_vec(), kind: ErrorKind::Eof })
    );
}

#[test]
fn last_variable_takes_up_to_the_newline() {
    let (rest, row) = bind("k={{v}}", "k=1 2\nmore").unwrap();
    assert_eq!(row, row_of(&[("v", "1 2")]));
    assert_eq!(rest, b"\nmore".to_vec());
}

#[test]
fn skip_takes_and_binds_nothing() {
    let (rest, row) = bind("{{x|skip}},{{b}}", "junk,2").unwrap();
    assert_eq!(row, row_of(&[("b", "2")]));
    assert_eq!(rest, b"".to_vec());
}

#[test]
fn filter_that_is_not_registered_does_nothing() {
    let nodes = parse_template(b"{{t|trim}}", &Syntax::default()).unwrap();
    let mut rx = VecDeque::new();
    let (rest, row) = TokenExpr::parse_token(&mut rx, b" 20", &nodes, &Registry::new()).unwrap();
    assert!(row.is_empty());
    assert_eq!(rest, b" 20".to_vec());
}

#[test]
fn token_expr_gives_rest_and_hit() {
    let next = Node::Lit(b"", b"--", b"");
    assert_eq!(
        token_expr(b"hello--world", Some(&next)),
        Some((&b"--world"[..], &b"hello"[..]))
    );
    assert_eq!(token_expr(b"hello", Some(&next)), None);
    assert_eq!(token_expr(b"he\nllo--", Some(&next)), Some((&b"\nllo--"[..], &b"he"[..])));
    assert_eq!(token_expr(b"hello", None), Some((&b""[..], &b"hello"[..])));
    assert_eq!(token_expr(b"a\nb", None), Some((&b"\nb"[..], &b"a"[..])));
    let other = Node::Expr(WS(false, false), Expr::Var(b"x"));
    assert_eq!(token_expr(b"a b", Some(&other)), Some((&b""[..], &b"a b"[..])));
}

#[test]
fn trim_takes_whitespace_off_both_ends() {
    assert_eq!(trim(b" \t20\r\n"), b"20");
    assert_eq!(trim(b"a b"), b"a b");
    assert_eq!(trim(b" \n"), b"");
    assert_eq!(trim(b""), b"");
    assert_eq!(Filter::Trim.apply(b"  x "), b"x".to_vec());
    assert_eq!(Filter::Trim.name(), b"trim".to_vec());
}

#[test]
fn registry_lookup() {
    let mut r = Registry::new();
    assert_eq!(r.lookup(b"trim"), None);
    r.register(Filter::Trim);
    assert_eq!(r.lookup(b"trim"), Some(Filter::Trim));
    assert_eq!(r.lookup(b"trims"), None);
    assert_eq!(Registry::standard().lookup(b"trim"), Some(Filter::Trim));
}

#[test]
fn comparisons_of_texts() {
    let h = row_of(&[("a", "1"), ("b", "x")]);
    assert!(TokenExpr::bin_op(&h, b"==", &Expr::Var(b"a"), &Expr::NumLit(b"1")));
    assert!(!TokenExpr::bin_op(&h, b"==", &Expr::Var(b"a"), &Expr::NumLit(b"01")));
    assert!(TokenExpr::bin_op(&h, b"!=", &Expr::Var(b"b"), &Expr::StrLit(b"y")));
    assert!(TokenExpr::bin_op(&h, b"==", &Expr::Var(b"none"), &Expr::Var(b"nil")));
    assert!(!TokenExpr::bin_op(&h, b"==", &Expr::Var(b"none"), &Expr::StrLit(b"")));
}

#[test]
fn comparisons_of_numbers() {
    let h = row_of(&[("a", "10"), ("b", "x")]);
    assert!(TokenExpr::bin_op(&h, b">", &Expr::Var(b"a"), &Expr::NumLit(b"9")));
    assert!(!TokenExpr::bin_op(&h, b"<", &Expr::Var(b"a"), &Expr::NumLit(b"9")));
    assert!(TokenExpr::bin_op(&h, b">=", &Expr::Var(b"a"), &Expr::NumLit(b"10")));
    assert!(TokenExpr::bin_op(&h, b"<=", &Expr::Var(b"a"), &Expr::NumLit(b"010")));
    assert!(TokenExpr::bin_op(&h, b"<", &Expr::Var(b"none"), &Expr::NumLit(b"0")));
    assert!(TokenExpr::bin_op(&h, b">=", &Expr::Var(b"none"), &Expr::Var(b"nil")));
    assert!(!TokenExpr::bin_op(&h, b"<", &Expr::Var(b"b"), &Expr::NumLit(b"5")));
    assert!(!TokenExpr::bin_op(&h, b">=", &Expr::Var(b"b"), &Expr::NumLit(b"5")));
    assert!(!TokenExpr::bin_op(&h, b"+", &Expr::Var(b"a"), &Expr::NumLit(b"5")));
}

#[test]
fn comparisons_of_decimal_numbers() {
    let h = row_of(&[("t", "-3.5"), ("u", "0.25"), ("z", "-0.0"), ("e", "1e3")]);
    assert!(TokenExpr::bin_op(&h, b"<", &Expr::Var(b"t"), &Expr::NumLit(b"0")));
    assert!(TokenExpr::bin_op(&h, b"<", &Expr::Var(b"t"), &Expr::StrLit(b"-3.49")));
    assert!(TokenExpr::bin_op(&h, b">", &Expr::Var(b"t"), &Expr::StrLit(b"-4")));
    assert!(TokenExpr::bin_op(&h, b">", &Expr::Var(b"u"), &Expr::StrLit(b".2")));
    assert!(TokenExpr::bin_op(&h, b"<=", &Expr::Var(b"u"), &Expr::StrLit(b"+0.250")));
    assert!(TokenExpr::bin_op(&h, b">=", &Expr::Var(b"z"), &Expr::NumLit(b"0")));
    assert!(TokenExpr::bin_op(&h, b"<=", &Expr::Var(b"z"), &Expr::NumLit(b"0")));
    assert!(!TokenExpr::bin_op(&h, b"<", &Expr::Var(b"z"), &Expr::NumLit(b"0")));
    assert!(TokenExpr::bin_op(&h, b"<", &Expr::Var(b"none"), &Expr::Var(b"t")));
    assert!(!TokenExpr::bin_op(&h, b">", &Expr::Var(b"e"), &Expr::NumLit(b"0")));
    assert!(!TokenExpr::bin_op(&h, b"<=", &Expr::Var(b"e"), &Expr::NumLit(b"0")));
}

#[test]
fn get_variable_gives_the_text_of_an_operand() {
    let h = row_of(&[("a", "1")]);
    assert_eq!(TokenExpr::get_variable(&h, &Expr::Var(b"a")), Some(b"1".to_vec()));
    assert_eq!(TokenExpr::get_variable(&h, &Expr::Var(b"z")), None);
    assert_eq!(TokenExpr::get_variable(&h, &Expr::NumLit(b"7")), Some(b"7".to_vec()));
    assert_eq!(TokenExpr::get_variable(&h, &Expr::StrLit(b"s")), Some(b"s".to_vec()));
    assert_eq!(TokenExpr::get_variable(&h, &Expr::BoolLit(b"true")), None);
}

#[test]
fn merge_prefers_the_second_row() {
    let first = row_of(&[("a", "1"), ("b", "2")]);
    let second = row_of(&[("b", "3"), ("c", "4")]);
    assert_eq!(
        TokenExpr::merge(&first, &second),
        row_of(&[("a", "1"), ("b", "3"), ("c", "4")])
    );
}

#[test]
fn conditional_runs_its_first_branch_that_holds() {
    let template = "{{k}}={% if k == 1 %}{{a}}{% else if k == 2 %}{{b}}{% else %}{{c}}{% endif %}";
    let nodes = parse_template(template.as_bytes(), &Syntax::default()).unwrap();
    let mut rx = VecDeque::new();
    let reg = Registry::standard();
    let (rest, row) = TokenExpr::parse_token(&mut rx, b"2=x\n", &nodes, &reg).unwrap();
    assert_eq!(row, row_of(&[("k", "2"), ("b", "x")]));
    assert_eq!(rest, b"x\n".to_vec());
    let (_, row) = TokenExpr::parse_token(&mut rx, b"1=y\n", &nodes, &reg).unwrap();
    assert_eq!(row, row_of(&[("k", "1"), ("a", "y")]));
    let (rest, row) = TokenExpr::parse_token(&mut rx, b"3=z\n", &nodes, &reg).unwrap();
    assert_eq!(row, row_of(&[("k", "3"), ("c", "z")]));
    assert_eq!(rest, b"z\n".to_vec());
}

#[test]
fn else_runs_where_the_condition_does_not_hold() {
    let template = "{{k}}={% if k == 1 %}{{a}}{% else %}{{c}}{% endif %}";
    let nodes = parse_template(template.as_bytes(), &Syntax::default()).unwrap();
    let mut rx = VecDeque::new();
    let reg = Registry::standard();
    let (_, row) = TokenExpr::parse_token(&mut rx, b"3=z", &nodes, &reg).unwrap();
    assert_eq!(row, row_of(&[("k", "3"), ("c", "z")]));
    let (_, row) = TokenExpr::parse_token(&mut rx, b"1=z", &nodes, &reg).unwrap();
    assert_eq!(row, row_of(&[("k", "1"), ("a", "z")]));
}

#[test]
fn branches_after_the_one_that_is_taken_bind_nothing() {
    let branch = |cond, name: &'static [u8]| {
        (
            WS(false, false),
            cond,
            vec![Node::Expr(WS(false, false), Expr::Var(name))],
        )
    };
    let cond = Node::Cond(
        vec![
            branch(Some(cmp("==", Expr::NumLit(b"1"), Expr::NumLit(b"2"))), &b"a"[..]),
            branch(None, &b"k"[..]),
            branch(Some(cmp("==", Expr::NumLit(b"1"), Expr::NumLit(b"1"))), &b"late"[..]),
        ],
        WS(false, false),
    );
    let mut rx = VecDeque::new();
    let (rest, row) =
        TokenExpr::parse_token(&mut rx, b"v\n", &vec![cond], &Registry::standard()).unwrap();
    assert_eq!(row, row_of(&[("k", "v")]));
    assert_eq!(rest, b"v\n".to_vec());
}

#[test]
fn condition_that_is_no_comparison_never_holds() {
    let cond = Node::Cond(
        vec![(
            WS(false, false),
            Some(Expr::Var(b"k")),
            vec![Node::Expr(WS(false, false), Expr::Var(b"c"))],
        )],
        WS(false, false),
    );
    let mut rx = VecDeque::new();
    let (rest, row) =
        TokenExpr::parse_token(&mut rx, b"abc", &vec![cond], &Registry::standard()).unwrap();
    assert!(row.is_empty());
    assert_eq!(rest, b"abc".to_vec());
}

#[test]
fn conditional_binds_on_what_is_left_of_the_line_and_leaves_it() {
    let cond = Node::Cond(
        vec![
            (
                WS(false, false),
                Some(cmp("==", Expr::Var(b"k"), Expr::NumLit(b"1"))),
                vec![Node::Expr(WS(false, false), Expr::Var(b"a"))],
            ),
            (
                WS(false, false),
                Some(cmp("==", Expr::Var(b"k"), Expr::NumLit(b"2"))),
                vec![
                    Node::Lit(b"", b";", b""),
                    Node::Expr(WS(false, false), Expr::Var(b"b")),
                ],
            ),
            (
                WS(false, false),
                None,
                vec![Node::Expr(WS(false, false), Expr::Var(b"c"))],
            ),
        ],
        WS(false, false),
    );
    let nodes = vec![
        Node::Expr(WS(false, false), Expr::Var(b"k")),
        Node::Lit(b"", b";", b""),
        cond,
        Node::Lit(b"", b"x", b""),
    ];
    let mut rx = VecDeque::new();
    let reg = Registry::standard();
    let (rest, row) = TokenExpr::parse_token(&mut rx, b"2;x;y", &nodes, &reg).unwrap();
    assert_eq!(row, row_of(&[("k", "2")]));
    assert_eq!(rest, b";y".to_vec());
}

#[test]
fn branch_without_condition_is_taken() {
    let cond = Node::Cond(
        vec![(
            WS(false, false),
            None,
            vec![Node::Expr(WS(false, false), Expr::Var(b"c"))],
        )],
        WS(false, false),
    );
    let mut rx = VecDeque::new();
    let (rest, row) =
        TokenExpr::parse_token(&mut rx, b"abc", &vec![cond], &Registry::standard()).unwrap();
    assert_eq!(row, row_of(&[("c", "abc")]));
    assert_eq!(rest, b"abc".to_vec());
}

#[test]
fn loop_over_a_range_binds_prefixed_names_and_pulls_lines() {
    let body = vec![Node::Expr(WS(false, false), Expr::Var(b"v"))];
    let range = Expr::Range(
        b"..",
        Some(Box::new(Expr::NumLit(b"0"))),
        Some(Box::new(Expr::Var(b"n"))),
    );
    let nodes = vec![
        Node::Lit(b"", b"n=", b""),
        Node::Expr(WS(false, false), Expr::Var(b"n")),
        Node::Loop(
            WS(false, false),
            kaeshi::ast::Target::Name(b"i"),
            range,
            body,
            WS(false, false),
        ),
        Node::Expr(WS(false, false), Expr::Var(b"tail")),
    ];
    let mut rx: VecDeque<InputToken> = VecDeque::new();
    rx.push_back(line("one\n"));
    rx.push_back(line("two\n"));
    rx.push_back(line("three\n"));
    let (rest, row) =
        TokenExpr::parse_token(&mut rx, b"n=2", &nodes, &Registry::standard()).unwrap();
    assert_eq!(
        row,
        row_of(&[("n", "2"), ("i0_v", ""), ("i1_v", "one"), ("tail", "two")])
    );
    assert_eq!(rest, b"\n".to_vec());
    assert_eq!(rx.len(), 1);
    assert_eq!(rx[0], line("three\n"));
}

#[test]
fn loop_leaves_the_end_of_the_stream_in_the_queue() {
    let range = Expr::Range(
        b"..",
        Some(Box::new(Expr::NumLit(b"1"))),
        Some(Box::new(Expr::NumLit(b"3"))),
    );
    let nodes = vec![Node::Loop(
        WS(false, false),
        kaeshi::ast::Target::Name(b"i"),
        range,
        vec![Node::Expr(WS(false, false), Expr::Var(b"v"))],
        WS(false, false),
    )];
    let mut rx: VecDeque<InputToken> = VecDeque::new();
    rx.push_back(InputToken::Byte(0));
    let (rest, row) =
        TokenExpr::parse_token(&mut rx, b"a\n", &nodes, &Registry::standard()).unwrap();
    assert_eq!(row, row_of(&[("i1_v", "a"), ("i2_v", "")]));
    assert_eq!(rest, b"".to_vec());
    assert_eq!(rx.len(), 1);
}

#[test]
fn loop_that_is_no_range_does_nothing() {
    let nodes = parse_template(b"{% for x in xs %}{{x}}{% endfor %}", &Syntax::default())
        .unwrap();
    let mut rx = VecDeque::new();
    let (rest, row) =
        TokenExpr::parse_token(&mut rx, b"abc", &nodes, &Registry::standard()).unwrap();
    assert!(row.is_empty());
    assert_eq!(rest, b"abc".to_vec());
}
