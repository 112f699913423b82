use dfq::model::Parent;
use dfq::parser::parse_dockerfile;

#[test]
fn parses_global_arg_and_from() {
    let file = "ARG VERSION=1\nFROM alpine:${VERSION}\nUSER root\n";
    let parsed = parse_dockerfile(file).expect("dockerfile should parse");

    assert_eq!(
        parsed
            .global_args
            .get("VERSION")
            .expect("global arg should exist"),
        Some("1".to_string())
    );
    assert_eq!(parsed.stages.len(), 1);
    assert_eq!(
        parsed.stages[0].parent,
        Parent::Image("alpine:${VERSION}".to_string())
    );
    assert_eq!(parsed.stages[0].instructions.len(), 1);
}

#[test]
fn parses_stage_reference() {
    let file = "FROM alpine AS base\nFROM base\n";
    let parsed = parse_dockerfile(file).expect("dockerfile should parse");
    assert_eq!(parsed.stages.len(), 2);
    assert_eq!(
        parsed.stages[1].parent,
        Parent::StageRef("base".to_string())
    );
}

#[test]
fn records_keywords_raw_text_and_lines() {
    let file = "FROM alpine AS base\nRUN echo one\nuser root\n";
    let parsed = parse_dockerfile(file).expect("dockerfile should parse");

    assert_eq!(parsed.raw_instructions.len(), 3);
    assert_eq!(parsed.raw_instructions[0].keyword, "FROM");
    assert_eq!(parsed.raw_instructions[1].keyword, "RUN");
    assert_eq!(parsed.raw_instructions[2].keyword, "USER");
    assert_eq!(parsed.raw_instructions[1].raw, "RUN echo one");
    assert_eq!(parsed.raw_instructions[1].start_line, 2);
    assert_eq!(parsed.raw_instructions[1].end_line, 2);

    let stage = &parsed.stages[0];
    assert_eq!(stage.index, 0);
    assert_eq!(stage.name, Some("base".to_string()));
    assert_eq!(stage.instructions.len(), 2);
    assert_eq!(stage.instructions[0].keyword, "RUN");
}

#[test]
fn stage_arg_defaults_are_scoped_to_their_stage() {
    let file = "ARG G=1\nFROM alpine\nARG S=2\nFROM busybox\nARG T\n";
    let parsed = parse_dockerfile(file).expect("dockerfile should parse");

    assert_eq!(parsed.global_args.get("G"), Some(Some("1".to_string())));
    assert_eq!(parsed.global_args.get("S"), None);
    assert_eq!(
        parsed.stages[0].arg_defaults.get("S"),
        Some(Some("2".to_string()))
    );
    assert_eq!(parsed.stages[0].arg_defaults.get("T"), None);
    assert_eq!(parsed.stages[1].arg_defaults.get("T"), Some(None));
}

#[test]
fn scratch_parent_is_classified() {
    let file = "FROM scratch\n";
    let parsed = parse_dockerfile(file).expect("dockerfile should parse");
    assert_eq!(parsed.stages[0].parent, Parent::Scratch);
}

#[test]
fn invalid_dockerfile_is_rejected() {
    let err = parse_dockerfile("ARG\n").expect_err("missing arg name should fail");
    assert!(err.render().starts_with("dockerfile parse error: "));
}

#[test]
fn repeated_arg_declaration_keeps_last_value() {
    let file = "ARG V=1\nARG V=2\nFROM alpine\n";
    let parsed = parse_dockerfile(file).expect("dockerfile should parse");
    assert_eq!(parsed.global_args.get("V"), Some(Some("2".to_string())));
}

#[test]
fn multibyte_text_keeps_raw_slices_and_lines() {
    let file = "FROM alpine\nRUN echo h\u{e9}llo \u{20ac}\nRUN echo done\n";
    let parsed = parse_dockerfile(file).expect("dockerfile should parse");
    assert_eq!(parsed.raw_instructions[1].raw, "RUN echo h\u{e9}llo \u{20ac}");
    assert_eq!(parsed.raw_instructions[2].raw, "RUN echo done");
    assert_eq!(parsed.raw_instructions[2].start_line, 3);
}
