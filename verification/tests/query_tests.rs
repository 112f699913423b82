use dfq::query::{parse_query, Arg, Index, Segment};

#[test]
fn parses_stage_name_index() {
    let query = parse_query(r#"STAGE["builder"].ARG.VERSION"#).expect("query should parse");
    assert_eq!(
        query.segments,
        vec![
            Segment::Indexed {
                ident: "STAGE".to_string(),
                index: Index::Key("builder".to_string())
            },
            Segment::Ident("ARG".to_string()),
            Segment::Ident("VERSION".to_string())
        ]
    );
}

#[test]
fn parses_wildcard() {
    let query = parse_query("FROM[*].RESOLVED").expect("query should parse");
    assert_eq!(
        query.segments,
        vec![
            Segment::Indexed {
                ident: "FROM".to_string(),
                index: Index::Wildcard,
            },
            Segment::Ident("RESOLVED".to_string()),
        ]
    );
}

#[test]
fn parses_resolve_call() {
    let query = parse_query(r#"RESOLVE("x:${VERSION}", 1, foo)"#).expect("query should parse");
    assert_eq!(
        query.segments,
        vec![Segment::Function {
            ident: "RESOLVE".to_string(),
            args: vec![
                Arg::String("x:${VERSION}".to_string()),
                Arg::Number(1),
                Arg::Ident("foo".to_string()),
            ],
        }]
    );
}

#[test]
fn rejects_invalid_query() {
    let error = parse_query("ARG.").expect_err("query should fail");
    let rendered = error.render();
    assert!(rendered.contains("query parse error"));
}

#[test]
fn keeps_source_text_verbatim() {
    let query = parse_query("  ARG . VERSION ").expect("query should parse");
    assert_eq!(query.source, "  ARG . VERSION ");
    assert_eq!(
        query.segments,
        vec![
            Segment::Ident("ARG".to_string()),
            Segment::Ident("VERSION".to_string())
        ]
    );
}

#[test]
fn parses_numeric_index_and_negative_number() {
    let query = parse_query("RUN[007].F(-12)").expect("query should parse");
    assert_eq!(
        query.segments,
        vec![
            Segment::Indexed {
                ident: "RUN".to_string(),
                index: Index::Position(7),
            },
            Segment::Function {
                ident: "F".to_string(),
                args: vec![Arg::Number(-12)],
            },
        ]
    );
}

#[test]
fn parses_string_escapes() {
    let query = parse_query(r#"F("a\"b\\c\n\t\'d")"#).expect("query should parse");
    assert_eq!(
        query.segments,
        vec![Segment::Function {
            ident: "F".to_string(),
            args: vec![Arg::String("a\"b\\c\n\t'd".to_string())],
        }]
    );
}

#[test]
fn rejects_empty_query() {
    let error = parse_query("   ").expect_err("query should fail");
    assert!(error.render().contains("query is empty"));
}

#[test]
fn rejects_unterminated_string() {
    let error = parse_query(r#"STAGE["oops"#).expect_err("query should fail");
    assert!(error.render().contains("unterminated string"));
}

#[test]
fn rejects_unsupported_escape() {
    let error = parse_query(r#"F("a\qb")"#).expect_err("query should fail");
    assert!(error.render().contains("unsupported string escape"));
}

#[test]
fn rejects_bad_index() {
    let error = parse_query("STAGE[?]").expect_err("query should fail");
    assert!(error
        .render()
        .contains("expected numeric, wildcard, or string index"));
}

#[test]
fn rejects_trailing_dot() {
    let error = parse_query(".ARG").expect_err("query should fail");
    assert!(error.render().contains("identifier must start with"));
}

#[test]
fn rejects_huge_numeric_index() {
    let error = parse_query("RUN[99999999999999999999999999]").expect_err("query should fail");
    assert!(error.render().contains("invalid numeric index"));
}

#[test]
fn error_span_points_at_failure() {
    let error = parse_query("ARG.").expect_err("query should fail");
    match error {
        dfq::error::Error::QueryParse { span, .. } => {
            let span = span.expect("span should be present");
            assert_eq!(span.start, 4);
            assert_eq!(span.end, 5);
        }
        other => panic!("unexpected error: {other:?}"),
    }
}
