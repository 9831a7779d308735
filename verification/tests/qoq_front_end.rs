use matchbox_vm::qoq::ast::{BinaryOp, Expression, JoinKind, QueryKind, TableSource};
use matchbox_vm::qoq::lexer::lex;
use matchbox_vm::qoq::parser::{parse, ParseError};
use matchbox_vm::qoq::token::{Span, TokenKind, TriviaKind};
use matchbox_vm::qoq::walk::QueryNode;

fn kinds(src: &str) -> Vec<TokenKind> {
    lex(src).tokens().iter().map(|t| t.kind).collect()
}

#[test]
fn lexes_a_simple_select() {
    assert_eq!(
        kinds("SELECT a, b FROM t"),
        vec![
            TokenKind::Select,
            TokenKind::Identifier,
            TokenKind::Comma,
            TokenKind::Identifier,
            TokenKind::From,
            TokenKind::Identifier,
            TokenKind::Eof
        ]
    );
}

#[test]
fn keywords_are_case_insensitive() {
    assert_eq!(kinds("select From wHeRe"), vec![TokenKind::Select, TokenKind::From, TokenKind::Where, TokenKind::Eof]);
}

#[test]
fn lexes_literals_and_operators() {
    assert_eq!(
        kinds("x >= 1.5 AND y <> 'it''s' OR :p = ?"),
        vec![
            TokenKind::Identifier,
            TokenKind::GreaterEqual,
            TokenKind::Number,
            TokenKind::And,
            TokenKind::Identifier,
            TokenKind::NotEqualAngle,
            TokenKind::String,
            TokenKind::Or,
            TokenKind::BindParameter,
            TokenKind::Equal,
            TokenKind::BindParameter,
            TokenKind::Eof
        ]
    );
}

#[test]
fn token_text_and_trivia() {
    let lexed = lex("SELECT  name -- note\nFROM t");
    let toks = lexed.tokens();
    assert_eq!(lexed.text(toks[1].span), "name");
    assert_eq!(toks[1].span.start, 8);
    assert_eq!(toks[1].span.end, 12);
    let trivia: Vec<TriviaKind> = lexed.trivia().iter().map(|t| t.kind).collect();
    assert_eq!(
        trivia,
        vec![TriviaKind::Whitespace, TriviaKind::Whitespace, TriviaKind::LineComment, TriviaKind::Whitespace, TriviaKind::Whitespace]
    );
    assert_eq!(lexed.source(), "SELECT  name -- note\nFROM t");
    let (src, tokens, _) = lexed.into_parts();
    assert_eq!(src.len(), 27);
    assert_eq!(tokens.last().unwrap().kind, TokenKind::Eof);
}

#[test]
fn the_last_token_is_always_eof() {
    assert_eq!(kinds(""), vec![TokenKind::Eof]);
    assert_eq!(kinds("   "), vec![TokenKind::Eof]);
}

#[test]
fn parses_a_select_with_where_and_order() {
    let q = parse("SELECT a, b AS bee FROM people WHERE age > 21 ORDER BY a DESC LIMIT 10").unwrap();
    let s = match &q.kind {
        QueryKind::Select(s) => s,
        _ => panic!("expected select"),
    };
    assert!(!s.distinct);
    assert_eq!(s.projection.len(), 2);
    assert_eq!(s.projection[1].alias.as_deref(), Some("bee"));
    assert_eq!(s.from.len(), 1);
    match &s.from[0].source {
        TableSource::Named(p) => assert_eq!(p, &vec!["people".to_string()]),
        _ => panic!("expected a named table"),
    }
    match &s.where_clause {
        Some(Expression::Binary { op, .. }) => assert_eq!(*op, BinaryOp::Gt),
        _ => panic!("expected a comparison"),
    }
    assert_eq!(s.order_by.len(), 1);
    assert!(s.order_by[0].descending);
    assert_eq!(s.limit, Some(10));
}

#[test]
fn parses_joins_and_unions() {
    let q = parse("SELECT * FROM a LEFT JOIN b ON a.id = b.id UNION ALL SELECT x FROM c").unwrap();
    match &q.kind {
        QueryKind::Union { left, all, .. } => {
            assert!(*all);
            match &left.kind {
                QueryKind::Select(s) => {
                    assert_eq!(s.from[0].joins.len(), 1);
                    assert_eq!(s.from[0].joins[0].kind, JoinKind::Left);
                    assert!(matches!(s.projection[0].expr, Expression::Star));
                }
                _ => panic!("expected select"),
            }
        }
        _ => panic!("expected union"),
    }
}

#[test]
fn precedence_of_and_over_or() {
    let q = parse("SELECT x FROM t WHERE a = 1 OR b = 2 AND c = 3").unwrap();
    let s = match &q.kind {
        QueryKind::Select(s) => s,
        _ => panic!(),
    };
    match &s.where_clause {
        Some(Expression::Binary { op, right, .. }) => {
            assert_eq!(*op, BinaryOp::Or);
            assert!(matches!(**right, Expression::Binary { op: BinaryOp::And, .. }));
        }
        _ => panic!("expected OR at the top"),
    }
}

#[test]
fn parse_errors() {
    let e = parse("SELECT a FROM").unwrap_err();
    assert_eq!(e.message, "expected identifier");
    let e = parse("SELECT a FROM t t2 t3").unwrap_err();
    assert_eq!(e.message, "unexpected trailing tokens");
    assert!(parse("").is_err());
}

#[test]
fn qualified_star_projection_is_a_parse_error() {
    assert!(parse("SELECT t.* FROM t").is_err());
}

#[test]
fn walks_nodes_in_order() {
    let q = parse("SELECT a FROM t WHERE b").unwrap();
    let nodes = q.walk();
    assert!(matches!(nodes[0], QueryNode::Query(_)));
    assert!(matches!(nodes[1], QueryNode::SelectStatement(_)));
    let n_exprs = nodes.iter().filter(|n| matches!(n, QueryNode::Expression(_))).count();
    assert_eq!(n_exprs, 2);
    assert_eq!(q.expressions().len(), 2);
    assert_eq!(q.tables().len(), 1);
}

#[test]
fn token_spans_are_ordered_and_inside_the_source() {
    let src = "SELECT é, 'x''y' /* c */ FROM t WHERE a<=2";
    let lexed = lex(src);
    let toks = lexed.tokens();
    for w in toks.windows(2) {
        assert!(w[0].span.start <= w[0].span.end);
        assert!(w[0].span.end <= w[1].span.start);
    }
    assert!(toks.last().unwrap().span.end <= src.len());
    assert_eq!(toks.iter().filter(|t| t.kind == TokenKind::Eof).count(), 1);
}

#[test]
fn parse_errors_display_message_and_position() {
    let e = ParseError {
        message: "expected FROM".to_string(),
        span: Span { start: 4, end: 9, line: 2, col: 15 },
    };
    assert_eq!(e.to_string(), "expected FROM at line 2, col 15");
}
