use std::collections::VecDeque;

use kaeshi::ast::Syntax;
use kaeshi::driver::drive;
use kaeshi::evaluator::{evaluate_nodes, Error, TemplateError};
use kaeshi::filters::Registry;
use kaeshi::parser::{parse_template, ParseError};
use kaeshi::row::Row;
use kaeshi::stream::{read_line, send_input, InputToken};
use kaeshi::{App, AppConfig, Mode, TokenExpr};

fn template(tag: &str, many: Option<bool>, count: Option<usize>) -> TokenExpr {
    TokenExpr {
        tag: tag.as_bytes().to_vec(),
        many,
        count,
        begin: None,
        end: None,
        vars: None,
    }
}

fn row_of(pairs: &[(&str, &str)]) -> Row {
    let mut row = Row::new();
    for (k, v) in pairs {
        row.insert(k.as_bytes().to_vec(), v.as_bytes().to_vec());
    }
    row
}

fn queue_of(input: &str) -> VecDeque<InputToken> {
    let mut rx = VecDeque::new();
    send_input(&mut rx, input.as_bytes());
    rx
}

fn line(text: &str) -> InputToken {
    InputToken::Channel(text.as_bytes().to_vec())
}

#[test]
fn input_becomes_lines_and_the_end_of_the_stream() {
    let rx = queue_of("a\nbc\n\nd");
    let want: Vec<InputToken> = vec![
        line("a\n"),
        line("bc\n"),
        line("\n"),
        line("d"),
        InputToken::Byte(0),
    ];
    assert_eq!(rx, VecDeque::from(want));
}

#[test]
fn empty_input_is_the_end_of_the_stream_alone() {
    let rx = queue_of("");
    assert_eq!(rx, VecDeque::from(vec![InputToken::Byte(0)]));
}

#[test]
fn end_of_stream_is_the_byte_zero() {
    assert_eq!(InputToken::end_of_stream(), InputToken::Byte(0));
    assert!(InputToken::Byte(0).is_end_of_stream());
    assert!(!InputToken::Byte(1).is_end_of_stream());
    assert!(!InputToken::EOF.is_end_of_stream());
    assert!(!line("").is_end_of_stream());
}

#[test]
fn read_line_takes_lines_only() {
    let mut rx = queue_of("a\n");
    assert_eq!(read_line(&mut rx), b"a\n".to_vec());
    assert_eq!(rx.len(), 1);
    assert_eq!(read_line(&mut rx), b"".to_vec());
    assert_eq!(rx.len(), 1);
    let mut none: VecDeque<InputToken> = VecDeque::new();
    assert_eq!(read_line(&mut none), b"".to_vec());
}

#[test]
fn csv_header_and_rows() {
    let templates = vec![
        template("id,name,age,email\n", None, None),
        template("{{i}},{{n}},{{a}},{{e}}\n", Some(true), None),
    ];
    let mut rx = queue_of("id,name,age,email\n1,abc,10,a@x\n2,def,20,b@x\n");
    let rows = drive(&templates, &mut rx, &Syntax::default(), &Registry::standard()).unwrap();
    assert_eq!(
        rows,
        vec![
            row_of(&[("i", "1"), ("n", "abc"), ("a", "10"), ("e", "a@x")]),
            row_of(&[("i", "2"), ("n", "def"), ("a", "20"), ("e", "b@x")]),
        ]
    );
    assert!(rx.is_empty());
}

#[test]
fn count_takes_as_many_lines_as_it_says() {
    let t = template("{{v}}\n", None, Some(3));
    let mut rx = queue_of("1\n2\n3\n4\n");
    let (terminated, rows) = t
        .evaluate(&mut rx, &Syntax::default(), &Registry::standard())
        .unwrap();
    assert!(!terminated);
    assert_eq!(
        rows,
        vec![row_of(&[("v", "1")]), row_of(&[("v", "2")]), row_of(&[("v", "3")])]
    );
    assert_eq!(rx.len(), 2);
    assert_eq!(rx[0], line("4\n"));
    let next = template("{{w}}\n", None, None);
    let (terminated, rows) = next
        .evaluate(&mut rx, &Syntax::default(), &Registry::standard())
        .unwrap();
    assert!(!terminated);
    assert_eq!(rows, vec![row_of(&[("w", "4")])]);
}

#[test]
fn count_skips_lines_that_do_not_match() {
    let t = template("v={{v}}\n", None, Some(3));
    let mut rx = queue_of("v=1\nx\nv=3\nv=4\n");
    let (terminated, rows) = t
        .evaluate(&mut rx, &Syntax::default(), &Registry::standard())
        .unwrap();
    assert!(!terminated);
    assert_eq!(rows, vec![row_of(&[("v", "1")]), row_of(&[("v", "3")])]);
    assert_eq!(rx[0], line("v=4\n"));
}

#[test]
fn count_of_nothing_takes_nothing() {
    let t = template("{{v}}\n", None, Some(0));
    let mut rx = queue_of("1\n");
    let (terminated, rows) = t
        .evaluate(&mut rx, &Syntax::default(), &Registry::standard())
        .unwrap();
    assert!(!terminated);
    assert!(rows.is_empty());
    assert_eq!(rx.len(), 2);
}

#[test]
fn count_ends_at_the_end_of_the_stream() {
    let t = template("{{v}}\n", None, Some(5));
    let mut rx = queue_of("1\n2\n");
    let (terminated, rows) = t
        .evaluate(&mut rx, &Syntax::default(), &Registry::standard())
        .unwrap();
    assert!(terminated);
    assert_eq!(rows.len(), 2);
    assert!(rx.is_empty());
}

#[test]
fn many_stops_at_the_line_that_does_not_match() {
    let t = template("v={{v}}\n", Some(true), None);
    let mut rx = queue_of("v=1\nother\nv=3\n");
    let (terminated, rows) = t
        .evaluate(&mut rx, &Syntax::default(), &Registry::standard())
        .unwrap();
    assert!(!terminated);
    assert_eq!(rows, vec![row_of(&[("v", "1")])]);
    assert_eq!(rx.len(), 2);
    assert_eq!(rx[0], line("v=3\n"));
}

#[test]
fn many_gives_a_row_for_each_line_up_to_the_end_of_the_stream() {
    let t = template("{{v}}\n", Some(true), None);
    let mut rx = queue_of("1\n2\n3\n4\n5\n");
    let (terminated, rows) = t
        .evaluate(&mut rx, &Syntax::default(), &Registry::standard())
        .unwrap();
    assert!(terminated);
    assert_eq!(rows.len(), 5);
    assert_eq!(rows[4], row_of(&[("v", "5")]));
    assert!(rx.is_empty());
}

#[test]
fn many_wins_over_count() {
    let t = template("{{v}}\n", Some(true), Some(1));
    assert_eq!(t.mode(), Mode::Many);
    assert_eq!(template("", Some(false), Some(2)).mode(), Mode::Count(2));
    assert_eq!(template("", Some(false), None).mode(), Mode::Once);
    assert_eq!(TokenExpr::new_with_tag(&b"x".to_vec()).mode(), Mode::Once);
}

#[test]
fn once_takes_one_line() {
    let t = template("v={{v}}\n", None, None);
    let mut rx = queue_of("v=1\nv=2\n");
    let (terminated, rows) = t
        .evaluate(&mut rx, &Syntax::default(), &Registry::standard())
        .unwrap();
    assert!(!terminated);
    assert_eq!(rows, vec![row_of(&[("v", "1")])]);
    assert_eq!(rx.len(), 2);
}

#[test]
fn once_on_a_line_that_does_not_match_gives_no_row() {
    let t = template("v={{v}}\n", None, None);
    let mut rx = queue_of("w=1\nv=2\n");
    let (terminated, rows) = t
        .evaluate(&mut rx, &Syntax::default(), &Registry::standard())
        .unwrap();
    assert!(!terminated);
    assert!(rows.is_empty());
    assert_eq!(rx.len(), 2);
}

#[test]
fn first_message_may_be_the_end_of_the_stream() {
    let t = template("v={{v}}\n", Some(true), None);
    let mut rx = queue_of("");
    let (terminated, rows) = t
        .evaluate(&mut rx, &Syntax::default(), &Registry::standard())
        .unwrap();
    assert!(terminated);
    assert!(rows.is_empty());
    assert!(rx.is_empty());
}

#[test]
fn other_messages_end_the_run_without_end_of_stream() {
    let nodes = parse_template(b"{{v}}\n", &Syntax::default()).unwrap();
    let mut rx: VecDeque<InputToken> = VecDeque::new();
    rx.push_back(line("1\n"));
    rx.push_back(InputToken::EOF);
    rx.push_back(line("2\n"));
    let (terminated, rows) = evaluate_nodes(&nodes, Mode::Many, &mut rx, &Registry::standard());
    assert!(!terminated);
    assert_eq!(rows.len(), 1);
    assert_eq!(rx.len(), 1);
    let mut empty: VecDeque<InputToken> = VecDeque::new();
    let (terminated, rows) = evaluate_nodes(&nodes, Mode::Once, &mut empty, &Registry::standard());
    assert!(!terminated);
    assert!(rows.is_empty());
}

#[test]
fn templates_after_the_end_of_the_stream_are_not_applied() {
    let templates = vec![
        template("{{a}}\n", Some(true), None),
        template("{{b}}\n", None, None),
    ];
    let mut rx = queue_of("1\n");
    rx.push_back(line("late\n"));
    let rows = drive(&templates, &mut rx, &Syntax::default(), &Registry::standard()).unwrap();
    assert_eq!(rows, vec![row_of(&[("a", "1")])]);
    assert_eq!(rx.len(), 1);
}

#[test]
fn templates_are_applied_once_each_in_order() {
    let templates = vec![
        template("a={{a}}\n", None, None),
        template("b={{b}}\n", None, None),
    ];
    let mut rx = queue_of("a=1\nb=2\na=3\n");
    let rows = drive(&templates, &mut rx, &Syntax::default(), &Registry::standard()).unwrap();
    assert_eq!(rows, vec![row_of(&[("a", "1")]), row_of(&[("b", "2")])]);
    assert_eq!(rx.len(), 2);
}

#[test]
fn template_that_cannot_be_read_is_refused_before_input_is_taken() {
    let templates = vec![
        template("{{a}}\n", None, None),
        template("x {{b", None, None),
    ];
    let mut rx = queue_of("1\n2\n");
    let r = drive(&templates, &mut rx, &Syntax::default(), &Registry::standard());
    assert_eq!(r, Err((1, TemplateError::Parse(ParseError { offset: 2 }))));
    assert_eq!(rx.len(), 3);
}

#[test]
fn unknown_filter_is_refused() {
    let t = template("{{a|upper}}\n", None, None);
    let mut rx = queue_of("1\n");
    assert_eq!(
        t.evaluate(&mut rx, &Syntax::default(), &Registry::standard()),
        Err(TemplateError::UnknownFilter(b"upper".to_vec()))
    );
    assert_eq!(rx.len(), 2);
    assert_eq!(
        t.compile(&Syntax::default(), &Registry::new()),
        Err(TemplateError::UnknownFilter(b"upper".to_vec()))
    );
    let inner = template("{% if a == 1 %}{{b|up}}{% endif %}", None, None);
    assert_eq!(
        inner.compile(&Syntax::default(), &Registry::standard()),
        Err(TemplateError::UnknownFilter(b"up".to_vec()))
    );
    let fine = template("{{a|skip}}{{b|trim}}", None, None);
    assert!(fine.compile(&Syntax::default(), &Registry::standard()).is_ok());
}

#[test]
fn parse_binds_one_line() {
    let t = template("total:{{t|trim}}", None, None);
    let mut rx = VecDeque::new();
    let syn = Syntax::default();
    let reg = Registry::standard();
    let (rest, row) = t.parse(&mut rx, b"total: 20\n", false, &syn, &reg).unwrap();
    assert_eq!(row, row_of(&[("t", "20")]));
    assert_eq!(rest, b"\n".to_vec());
    assert!(matches!(
        t.parse(&mut rx, b"sum: 20\n", true, &syn, &reg),
        Err(Error::Miss(_))
    ));
    let bad = template("{{", None, None);
    assert_eq!(
        bad.parse(&mut rx, b"x", false, &syn, &reg),
        Err(Error::Template(TemplateError::Parse(ParseError { offset: 0 })))
    );
}

#[test]
fn app_sends_and_parses() {
    let mut config = AppConfig::default();
    config.templates.push(template("{{k}}={{v}}\n", Some(true), None));
    config.table = Some(b"t".to_vec());
    let mut app = App::new_with_config(config);
    app.send_string(b"a=1\n".to_vec());
    app.send_string(b"b=it's\n".to_vec());
    app.send_byte(0);
    let templates = vec![template("{{k}}={{v}}\n", Some(true), None)];
    let statements = app
        .parse_handler(&templates, &Syntax::default(), &Registry::standard(), b"2020-01-02T03:04:05+00:00")
        .unwrap();
    assert_eq!(
        statements,
        vec![
            b"CREATE TABLE t (k TEXT,v TEXT);".to_vec(),
            b"INSERT INTO t VALUES ('a','1')".to_vec(),
            b"INSERT INTO t VALUES ('b','it''s')".to_vec(),
        ]
    );
    assert_eq!(app.table_name(), b"t".to_vec());
    assert_eq!(app.default_query(), b"SELECT * FROM t;".to_vec());
    assert!(app.tx.is_empty());
}

#[test]
fn app_puts_the_time_into_each_row() {
    let mut config = AppConfig::default();
    config.timestamp = Some(b"at".to_vec());
    let mut app = App::new_with_config(config);
    app.input_handler(b"a=1\nb=2\n");
    let templates = vec![template("{{k}}={{v}}\n", Some(true), None)];
    let statements = app
        .parse_handler(&templates, &Syntax::default(), &Registry::standard(), b"2020-01-02T03:04:05+00:00")
        .unwrap();
    assert_eq!(
        statements,
        vec![
            b"CREATE TABLE main (k TEXT,v TEXT, at timestamp);".to_vec(),
            b"INSERT INTO main VALUES ('a','1', '2020-01-02T03:04:05+00:00')".to_vec(),
            b"INSERT INTO main VALUES ('b','2', '2020-01-02T03:04:05+00:00')".to_vec(),
        ]
    );
}

#[test]
fn app_input_handler_fills_the_queue() {
    let mut app = App::new_with_config(AppConfig::default());
    app.input_handler(b"x\ny");
    assert_eq!(
        app.tx,
        VecDeque::from(vec![line("x\n"), line("y"), InputToken::Byte(0)])
    );
    assert_eq!(app.default_query(), b"SELECT * FROM main;".to_vec());
}

#[test]
fn many_gives_one_row_and_one_for_each_line_after_it_that_matches() {
    let t = template("v={{v}}\n", Some(true), None);
    let mut rx = queue_of("v=1\nv=2\nv=3\nstop\nv=5\n");
    let (terminated, rows) = t
        .evaluate(&mut rx, &Syntax::default(), &Registry::standard())
        .unwrap();
    assert!(!terminated);
    assert_eq!(
        rows,
        vec![row_of(&[("v", "1")]), row_of(&[("v", "2")]), row_of(&[("v", "3")])]
    );
    assert_eq!(rx[0], line("v=5\n"));
}

#[test]
fn lines_that_bind_no_name_give_no_row() {
    let t = template("x\n", Some(true), None);
    let mut rx = queue_of("x\nx\n");
    let (terminated, rows) = t
        .evaluate(&mut rx, &Syntax::default(), &Registry::standard())
        .unwrap();
    assert!(terminated);
    assert!(rows.is_empty());
}

#[test]
fn copies_hold_the_same() {
    let mut t = template("{{a}}\n", Some(true), Some(2));
    t.begin = Some(b"<".to_vec());
    t.vars = Some(vec![
        (b"a".to_vec(), kaeshi::VarExpr::Regex(b"x+".to_vec())),
        (b"b".to_vec(), kaeshi::VarExpr::If(template("y", None, None))),
    ]);
    let c = t.clone();
    assert_eq!(c.tag, t.tag);
    assert_eq!(c.many, Some(true));
    assert_eq!(c.count, Some(2));
    assert_eq!(c.begin, Some(b"<".to_vec()));
    assert_eq!(c.end, None);
    assert_eq!(format!("{:?}", c), format!("{:?}", t));
    let mut config = AppConfig::default();
    config.templates.push(t);
    config.table = Some(b"t".to_vec());
    config.filters = Some(vec![b"trim".to_vec()]);
    let copy = config.clone();
    assert_eq!(format!("{:?}", copy), format!("{:?}", config));
    let row = row_of(&[("a", "1"), ("b", "2")]);
    assert_eq!(row.clone(), row);
}
